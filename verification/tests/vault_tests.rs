use sentinelvault::crypto::{CryptoEngine, EncryptedData, SecretKey};
use sentinelvault::crypto::{hash_password, verify_password};
use sentinelvault::errors::VaultError;
use sentinelvault::identity::{authenticate, check_master_password, check_new_password, Identity};
use sentinelvault::lease::{parse_duration, Lease, LeaseManager};
use sentinelvault::utils::{
    clear_sensitive_data, format_bytes, now_ts, sanitize_secret_name, secure_compare, str_lt,
    validate_secret_value,
};
use sentinelvault::vault::{SecretEntry, Vault, VaultData};

const NOW: i64 = 1_700_000_000;

#[test]
fn test_encryption_roundtrip() {
    let key = SecretKey::new([42u8; 32]);
    let engine = CryptoEngine::new(&key);
    let plaintext = "Hello, World!";

    let encrypted = engine.encrypt(plaintext).unwrap();
    let decrypted = engine.decrypt(&encrypted).unwrap();

    assert_eq!(plaintext, decrypted);
}

#[test]
fn test_password_hashing() {
    let password = "test_password";
    let hash = hash_password(password).unwrap();

    assert!(verify_password(password, &hash).unwrap());
    assert!(!verify_password("wrong_password", &hash).unwrap());
}

#[test]
fn crypto_test_key_derivation() {
    let password = "test_password";
    let salt = sentinelvault::crypto::generate_salt();

    let key1 = sentinelvault::crypto::derive_key_from_password(password, &salt).unwrap();
    let key2 = sentinelvault::crypto::derive_key_from_password(password, &salt).unwrap();

    assert_eq!(key1.as_bytes(), key2.as_bytes());
}

#[test]
fn test_identity_creation_and_verification() {
    let password = "test_password_123";
    let identity = Identity::new(password).unwrap();

    assert!(identity.verify_password(password).unwrap());
    assert!(!identity.verify_password("wrong_password").unwrap());
}

#[test]
fn identity_test_key_derivation() {
    let password = "test_password_123";
    let identity = Identity::new(password).unwrap();

    let key1 = identity.derive_key(password).unwrap();
    let key2 = identity.derive_key(password).unwrap();

    assert_eq!(key1.as_bytes(), key2.as_bytes());
}

#[test]
fn test_lease_creation() {
    let lease = Lease::new(NOW, 600);

    assert!(!lease.is_expired(NOW));
    assert!(lease.time_remaining(NOW).is_some());
}

#[test]
fn test_lease_expiry() {
    let lease = Lease::new(NOW, -1);

    assert!(lease.is_expired(NOW));
    assert!(lease.time_remaining(NOW).is_none());
}

#[test]
fn test_lease_manager() {
    let mut manager = LeaseManager::new();

    manager.add_lease("test_secret".to_string(), NOW, 600);

    assert!(manager.get_lease("test_secret").is_some());
    assert_eq!(manager.active_leases_count(NOW), 1);
    assert_eq!(manager.expired_leases_count(NOW), 0);
}

#[test]
fn test_parse_duration() {
    assert_eq!(parse_duration("10s").unwrap(), 10);
    assert_eq!(parse_duration("5m").unwrap(), 5 * 60);
    assert_eq!(parse_duration("2h").unwrap(), 2 * 3600);
    assert_eq!(parse_duration("1d").unwrap(), 86400);
    assert_eq!(parse_duration("3w").unwrap(), 3 * 604800);

    assert!(parse_duration("").is_err());
    assert!(parse_duration("10").is_err());
    assert!(parse_duration("10x").is_err());
    assert!(parse_duration("-5m").is_err());
}

#[test]
fn test_cleanup_expired() {
    let mut manager = LeaseManager::new();

    manager.add_lease("expired".to_string(), NOW, -1);
    manager.add_lease("active".to_string(), NOW, 600);

    let expired = manager.cleanup_expired(NOW);

    assert_eq!(expired.len(), 1);
    assert_eq!(expired[0], "expired");
    assert!(manager.get_lease("expired").is_none());
    assert!(manager.get_lease("active").is_some());
}

#[test]
fn test_format_bytes() {
    assert_eq!(format_bytes(0), "0 B");
    assert_eq!(format_bytes(1023), "1023 B");
    assert_eq!(format_bytes(1024), "1.0 KB");
    assert_eq!(format_bytes(1536), "1.5 KB");
    assert_eq!(format_bytes(1048576), "1.0 MB");
}

#[test]
fn test_sanitize_secret_name() {
    assert!(sanitize_secret_name("valid_name").is_ok());
    assert!(sanitize_secret_name("valid-name").is_ok());
    assert!(sanitize_secret_name("valid.name").is_ok());

    assert!(sanitize_secret_name("").is_err());
    assert!(sanitize_secret_name("name/with/slash").is_err());
    assert!(sanitize_secret_name("name\\with\\backslash").is_err());
    assert!(sanitize_secret_name("CON").is_err());
    assert!(sanitize_secret_name("name\0with\0null").is_err());
}

#[test]
fn test_validate_secret_value() {
    assert!(validate_secret_value("valid_value").is_ok());
    assert!(validate_secret_value("").is_err());
    assert!(validate_secret_value("value\0with\0null").is_err());

    let long_value = "a".repeat(10_001);
    assert!(validate_secret_value(&long_value).is_err());
}

#[test]
fn test_secure_compare() {
    assert!(secure_compare("hello", "hello"));
    assert!(!secure_compare("hello", "world"));
    assert!(!secure_compare("hello", "hello world"));
    assert!(!secure_compare("", "hello"));
}

#[test]
fn test_secret_encryption_roundtrip() {
    let key = SecretKey::new([42u8; 32]);
    let engine = CryptoEngine::new(&key);

    let plaintext = "super_secret_api_key_12345";
    let encrypted = engine.encrypt(plaintext).unwrap();
    let decrypted = engine.decrypt(&encrypted).unwrap();

    assert_eq!(plaintext, decrypted);
}

#[test]
fn test_lease_manager_functionality() {
    let mut manager = LeaseManager::new();

    manager.add_lease("test_secret".to_string(), NOW, 600);

    assert!(manager.get_lease("test_secret").is_some());
    assert_eq!(manager.active_leases_count(NOW), 1);
    assert_eq!(manager.expired_leases_count(NOW), 0);

    let cleaned = manager.cleanup_expired(NOW);
    assert!(cleaned.is_empty());
    assert_eq!(manager.active_leases_count(NOW), 1);
}

#[test]
fn test_expired_lease_cleanup() {
    let mut manager = LeaseManager::new();

    manager.add_lease("expired_secret".to_string(), NOW, -1);
    manager.add_lease("active_secret".to_string(), NOW, 600);

    let cleaned = manager.cleanup_expired(NOW);

    assert_eq!(cleaned.len(), 1);
    assert_eq!(cleaned[0], "expired_secret");
    assert!(manager.get_lease("expired_secret").is_none());
    assert!(manager.get_lease("active_secret").is_some());
}

#[test]
fn test_duration_parsing() {
    assert_eq!(parse_duration("10s").unwrap(), 10);
    assert_eq!(parse_duration("5m").unwrap(), 5 * 60);
    assert_eq!(parse_duration("2h").unwrap(), 2 * 3600);
    assert_eq!(parse_duration("1d").unwrap(), 86400);

    assert!(parse_duration("").is_err());
    assert!(parse_duration("10").is_err());
    assert!(parse_duration("abc").is_err());
    assert!(parse_duration("-5m").is_err());
}

#[test]
fn test_secret_entry_access_tracking() {
    let key = SecretKey::new([1u8; 32]);
    let engine = CryptoEngine::new(&key);
    let encrypted_value = engine.encrypt("test_value").unwrap();

    let mut entry = SecretEntry::new(encrypted_value, NOW);

    assert_eq!(entry.access_count, 0);
    assert!(entry.last_accessed.is_none());

    entry.mark_accessed(NOW + 10);

    assert_eq!(entry.access_count, 1);
    assert!(entry.last_accessed.is_some());

    let first_access = entry.last_accessed.unwrap();

    entry.mark_accessed(NOW + 32);

    assert_eq!(entry.access_count, 2);
    assert!(entry.last_accessed.unwrap() > first_access);
}

#[test]
fn test_vault_data_versioning() {
    let vault_data = VaultData::default();
    assert_eq!(vault_data.version, "0.1.0");
    assert!(vault_data.created_at <= now_ts());
}

#[test]
fn test_large_secret_handling() {
    let key = SecretKey::new([1u8; 32]);
    let engine = CryptoEngine::new(&key);

    let large_secret = "x".repeat(9000);
    assert!(validate_secret_value(&large_secret).is_ok());

    let encrypted = engine.encrypt(&large_secret).unwrap();
    let decrypted = engine.decrypt(&encrypted).unwrap();

    assert_eq!(large_secret, decrypted);

    let too_large_secret = "x".repeat(10_001);
    assert!(validate_secret_value(&too_large_secret).is_err());
}

#[test]
fn nonce_uniqueness_across_encryptions() {
    let key = SecretKey::new([7u8; 32]);
    let engine = CryptoEngine::new(&key);

    let e1 = engine.encrypt("same plaintext").unwrap();
    let e2 = engine.encrypt("same plaintext").unwrap();

    assert!(e1.nonce != e2.nonce || e1.ciphertext != e2.ciphertext);
}

#[test]
fn tampering_any_bit_is_detected() {
    let key = SecretKey::new([9u8; 32]);
    let engine = CryptoEngine::new(&key);
    let encrypted = engine.encrypt("attack at dawn").unwrap();

    for byte in 0..encrypted.ciphertext.len() {
        for bit in 0..8 {
            let mut tampered = encrypted.clone();
            tampered.ciphertext[byte] ^= 1 << bit;
            assert_eq!(engine.decrypt(&tampered), Err(VaultError::Decryption));
        }
    }
    for byte in 0..encrypted.nonce.len() {
        for bit in 0..8 {
            let mut tampered = encrypted.clone();
            tampered.nonce[byte] ^= 1 << bit;
            assert_eq!(engine.decrypt(&tampered), Err(VaultError::Decryption));
        }
    }
}

#[test]
fn wrong_length_nonce_is_rejected() {
    let key = SecretKey::new([9u8; 32]);
    let engine = CryptoEngine::new(&key);
    let encrypted = engine.encrypt("short lived").unwrap();

    let short_nonce = EncryptedData {
        ciphertext: encrypted.ciphertext.clone(),
        nonce: encrypted.nonce[..5].to_vec(),
    };
    assert_eq!(engine.decrypt(&short_nonce), Err(VaultError::Decryption));

    let empty_nonce = EncryptedData { ciphertext: encrypted.ciphertext.clone(), nonce: vec![] };
    assert_eq!(engine.decrypt(&empty_nonce), Err(VaultError::Decryption));

    let mut long = encrypted.nonce.clone();
    long.push(0);
    let long_nonce = EncryptedData { ciphertext: encrypted.ciphertext.clone(), nonce: long };
    assert_eq!(engine.decrypt(&long_nonce), Err(VaultError::Decryption));
}

#[test]
fn ciphertext_carries_a_sixteen_byte_tag() {
    let key = SecretKey::new([11u8; 32]);
    let engine = CryptoEngine::new(&key);
    let plaintext = "tagged message";
    let encrypted = engine.encrypt(plaintext).unwrap();
    assert_eq!(encrypted.ciphertext.len(), plaintext.len() + 16);
    assert_eq!(encrypted.nonce.len(), 12);
}

#[test]
fn clearing_zeroes_the_key() {
    let mut key = SecretKey::new([42u8; 32]);
    key.clear();
    assert_eq!(key.as_bytes(), &[0u8; 32]);
}

#[test]
fn truncated_ciphertext_is_rejected() {
    let key = SecretKey::new([9u8; 32]);
    let engine = CryptoEngine::new(&key);
    let encrypted = engine.encrypt("short lived").unwrap();

    let truncated = EncryptedData {
        ciphertext: encrypted.ciphertext[..4].to_vec(),
        nonce: encrypted.nonce.clone(),
    };
    assert_eq!(engine.decrypt(&truncated), Err(VaultError::Decryption));
}

#[test]
fn wrong_key_fails_decryption() {
    let engine_a = CryptoEngine::new(&SecretKey::new([1u8; 32]));
    let engine_b = CryptoEngine::new(&SecretKey::new([2u8; 32]));
    let encrypted = engine_a.encrypt("for a only").unwrap();
    assert_eq!(engine_b.decrypt(&encrypted), Err(VaultError::Decryption));
}

#[test]
fn end_to_end_lease_scenario() {
    let identity = Identity::new("correctpassword1").unwrap();
    let key = authenticate(&identity, "correctpassword1").unwrap();

    let mut vault = Vault::load(VaultData::default(), &key, NOW);
    vault.add_secret("api_key", "sk-123", NOW).unwrap();
    assert_eq!(
        vault.get_secret("api_key", NOW).unwrap(),
        Some("sk-123".to_string())
    );

    vault.set_expiry("api_key", "1s", NOW).unwrap();
    assert_eq!(
        vault.get_secret("api_key", NOW).unwrap(),
        Some("sk-123".to_string())
    );

    let later = NOW + 2;
    assert_eq!(vault.get_secret("api_key", later).unwrap(), None);
    let listing = vault.list_secrets(later).unwrap();
    assert!(listing.is_empty());
}

#[test]
fn wrong_password_is_invalid_credentials() {
    let identity = Identity::new("correctpassword1").unwrap();
    match authenticate(&identity, "wrongpassword12") {
        Err(e) => assert_eq!(e, VaultError::InvalidCredentials),
        Ok(_) => panic!("wrong password was accepted"),
    }
}

#[test]
fn malformed_verifier_is_corrupt() {
    assert_eq!(
        verify_password("anything", "not a PHC string").unwrap_err(),
        VaultError::CorruptVault
    );
}

#[test]
fn new_password_rules() {
    assert!(check_new_password("longenough1", "longenough1").is_ok());
    assert_eq!(
        check_new_password("short", "short").unwrap_err(),
        VaultError::WeakPassword
    );
    assert_eq!(
        check_new_password("longenough1", "longenough2").unwrap_err(),
        VaultError::PasswordMismatch
    );
    assert!(check_master_password("12345678").is_ok());
    assert_eq!(
        check_master_password("1234567").unwrap_err(),
        VaultError::WeakPassword
    );
}

#[test]
fn removal_is_idempotent() {
    let key = SecretKey::new([3u8; 32]);
    let mut vault = Vault::load(VaultData::default(), &key, NOW);
    vault.add_secret("keeper", "value-1", NOW).unwrap();

    assert_eq!(vault.remove_secret("missing").unwrap(), false);
    assert_eq!(vault.data().secrets.len(), 1);
    assert_eq!(
        vault.get_secret("keeper", NOW).unwrap(),
        Some("value-1".to_string())
    );

    assert_eq!(vault.remove_secret("keeper").unwrap(), true);
    assert_eq!(vault.remove_secret("keeper").unwrap(), false);
    assert_eq!(vault.data().secrets.len(), 0);
}

#[test]
fn listing_is_sorted_and_omits_expired() {
    let key = SecretKey::new([4u8; 32]);
    let mut vault = Vault::load(VaultData::default(), &key, NOW);
    vault.add_secret("bravo", "2", NOW).unwrap();
    vault.add_secret("alpha", "1", NOW).unwrap();
    vault.add_secret("charlie", "3", NOW).unwrap();
    vault.set_expiry("bravo", "10s", NOW).unwrap();

    let listing = vault.list_secrets(NOW).unwrap();
    let names: Vec<&str> = listing.iter().map(|(n, _)| n.as_str()).collect();
    assert_eq!(names, vec!["alpha", "bravo", "charlie"]);
    assert_eq!(listing[1].1, Some(NOW + 10));

    let listing_later = vault.list_secrets(NOW + 11).unwrap();
    let names_later: Vec<&str> = listing_later.iter().map(|(n, _)| n.as_str()).collect();
    assert_eq!(names_later, vec!["alpha", "charlie"]);
}

#[test]
fn load_sweeps_expired_secrets() {
    let key = SecretKey::new([5u8; 32]);
    let mut vault = Vault::load(VaultData::default(), &key, NOW);
    vault.add_secret("doomed", "gone", NOW).unwrap();
    vault.add_secret("stable", "kept", NOW).unwrap();
    vault.set_expiry("doomed", "1s", NOW).unwrap();

    let reopened = Vault::load(vault.into_data(), &key, NOW + 5);
    assert_eq!(reopened.get_secret("doomed", NOW + 5).unwrap(), None);
    assert_eq!(reopened.data().secrets.len(), 1);
    assert_eq!(
        reopened.get_secret("stable", NOW + 5).unwrap(),
        Some("kept".to_string())
    );
}

#[test]
fn set_expiry_on_unknown_name_is_not_found() {
    let key = SecretKey::new([6u8; 32]);
    let mut vault = Vault::load(VaultData::default(), &key, NOW);
    assert_eq!(
        vault.set_expiry("ghost", "10s", NOW).unwrap_err(),
        VaultError::NotFound
    );
    assert_eq!(
        vault.set_expiry("ghost", "bogus", NOW).unwrap_err(),
        VaultError::NotFound
    );
    vault.add_secret("real", "v", NOW).unwrap();
    assert_eq!(
        vault.set_expiry("real", "bogus", NOW).unwrap_err(),
        VaultError::Validation
    );
}

#[test]
fn duplicate_names_are_corrupt() {
    let lease_entries = vec![
        ("a".to_string(), Lease::new(NOW, 10)),
        ("a".to_string(), Lease::new(NOW, 20)),
    ];
    assert_eq!(
        LeaseManager::from_entries(lease_entries).unwrap_err(),
        VaultError::CorruptVault
    );
    assert!(LeaseManager::from_entries(vec![("a".to_string(), Lease::new(NOW, 10))]).is_ok());
}

#[test]
fn backup_snapshots_vault_and_verifier() {
    let key = SecretKey::new([8u8; 32]);
    let mut vault = Vault::load(VaultData::default(), &key, NOW);
    vault.add_secret("token", "t-1", NOW).unwrap();

    let backup = vault.create_backup("$argon2id$stub", NOW + 1);
    assert_eq!(backup.identity_hash, "$argon2id$stub");
    assert_eq!(backup.created_at, NOW + 1);
    assert_eq!(backup.version, "0.1.0");
    assert_eq!(backup.vault_data.secrets.len(), 1);
    assert_eq!(backup.vault_data.secrets[0].0, "token");
}

#[test]
fn stats_count_leases() {
    let key = SecretKey::new([10u8; 32]);
    let mut vault = Vault::load(VaultData::default(), &key, NOW);
    vault.add_secret("one", "1", NOW).unwrap();
    vault.add_secret("two", "2", NOW).unwrap();
    vault.set_expiry("one", "10s", NOW).unwrap();
    vault.set_expiry("two", "1s", NOW).unwrap();

    let stats = vault.get_stats(4096, NOW + 5);
    assert_eq!(stats.total_secrets, 2);
    assert_eq!(stats.active_leases, 1);
    assert_eq!(stats.expired_secrets, 1);
    assert_eq!(stats.vault_size, 4096);
}

#[test]
fn string_order_is_lexicographic() {
    assert!(str_lt("abc", "abd"));
    assert!(str_lt("ab", "abc"));
    assert!(!str_lt("abc", "abc"));
    assert!(!str_lt("b", "a"));
    assert!(str_lt("Zoo", "apple"));
}

#[test]
fn clearing_zeroes_the_buffer() {
    let mut data = vec![1u8, 2, 3, 4];
    clear_sensitive_data(&mut data);
    assert_eq!(data, vec![0u8, 0, 0, 0]);
}

#[test]
fn salts_are_fresh() {
    let s1 = sentinelvault::crypto::generate_salt();
    let s2 = sentinelvault::crypto::generate_salt();
    assert_ne!(s1, s2);
}
