// Whole workflows: save, encrypt, load; a recovery token; a corrupted store.

use note_vault::envelope::{decrypt_memory, encrypt_memory};
use note_vault::error::StoreError;
use note_vault::key::Key;
use note_vault::memory::Memory;
use note_vault::recovery::RecoveryToken;
use note_vault::store::save_memory;
use rand::RngCore;

fn setup_master_key() -> Key {
    let mut key_bytes = [0u8; 32];
    rand::thread_rng().fill_bytes(&mut key_bytes);
    Key::from_bytes(key_bytes)
}

#[test]
fn test_full_workflow() {
    let key = setup_master_key();
    let mut memory = Memory::default();
    // Save
    let written = save_memory(&mut memory, &key, "k1", "v1", &["tag1".to_string()]).unwrap();
    // Encrypt
    let encrypted = encrypt_memory(&memory, &key).unwrap();
    // Load
    let loaded = decrypt_memory(&encrypted, &key).unwrap();
    assert_eq!(loaded.get("k1").unwrap().value(), "v1");
    // Show
    assert!(loaded.contains_key("k1"));
    // What the save handed out for writing holds the same.
    let from_save = decrypt_memory(&written, &key).unwrap();
    assert_eq!(from_save.get("k1").unwrap().value(), "v1");
    assert_eq!(from_save.get("k1").unwrap().tags(), &vec!["tag1".to_string()]);
}

#[test]
fn test_recovery_file() {
    let recovery = RecoveryToken::generate();
    let recovery_json = recovery.to_json().unwrap();
    let loaded = RecoveryToken::parse(&recovery_json).unwrap();
    assert_eq!(loaded.id(), recovery.id());
}

#[test]
fn test_corrupted_memory_file_error() {
    let key = setup_master_key();
    // A corrupted store
    let corrupted = b"not valid".to_vec();
    let result = decrypt_memory(&corrupted, &key);
    assert!(result.is_err());
    assert_eq!(result.unwrap_err(), StoreError::EnvelopeTooShort);
}
