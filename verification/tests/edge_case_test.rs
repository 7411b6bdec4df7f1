// Edge cases: empty texts, a wrong key, a recovery token in a fresh place.

use note_vault::envelope::{decrypt_memory, encrypt_memory};
use note_vault::key::{load_master_key, Key};
use note_vault::memory::Memory;
use note_vault::recovery::RecoveryToken;
use note_vault::store::{load_memory, save_memory};
use rand::RngCore;

fn setup_master_key() -> (Vec<u8>, Key) {
    let mut key_bytes = [0u8; 32];
    rand::thread_rng().fill_bytes(&mut key_bytes);
    let stored = key_bytes.to_vec();
    let key = load_master_key(&stored).unwrap();
    (stored, key)
}

#[test]
fn test_save_empty_key_or_value() {
    let (_stored, key) = setup_master_key();
    let mut memory = Memory::default();
    // Empty key
    let result = save_memory(&mut memory, &key, "", "value", &[]);
    assert!(result.is_ok(), "Should allow empty key");
    // Empty value
    let result = save_memory(&mut memory, &key, "key", "", &[]);
    assert!(result.is_ok(), "Should allow empty value");
    // Both empty
    let result = save_memory(&mut memory, &key, "", "", &[]);
    assert!(result.is_ok(), "Should allow both empty");
}

#[test]
fn test_load_with_wrong_master_key() {
    let (_stored, key1) = setup_master_key();
    let mut memory = Memory::default();
    save_memory(&mut memory, &key1, "k1", "v1", &[]).unwrap();
    let encrypted = encrypt_memory(&memory, &key1).unwrap();
    // Generate a different key
    let mut wrong_key_bytes = [0u8; 32];
    rand::thread_rng().fill_bytes(&mut wrong_key_bytes);
    let wrong_key = Key::from_bytes(wrong_key_bytes);
    let loaded = decrypt_memory(&encrypted, &wrong_key);
    assert!(loaded.is_err(), "Should fail to decrypt with wrong key");
}

#[test]
fn test_recovery_file_in_fresh_env() {
    // Onboarding left a recovery token behind.
    let recovery = RecoveryToken::generate();
    let recovery_json = recovery.to_json().unwrap();
    // A fresh place: no master key and no memory are stored.
    let master_key: Option<Vec<u8>> = None;
    let stored_memory: Option<Vec<u8>> = None;
    assert!(master_key.is_none());
    assert!(stored_memory.is_none());
    // Load the recovery token
    let loaded = RecoveryToken::parse(&recovery_json).unwrap();
    assert_eq!(loaded.id(), recovery.id());
}

#[test]
fn a_store_with_nothing_stored_loads_as_empty() {
    let (_stored, key) = setup_master_key();
    let memory = load_memory(None, &key).unwrap();
    assert!(memory.is_empty());
    assert_eq!(memory.len(), 0);
    assert!(memory.history().is_empty());
}
