// Encryption, decryption and saving, on notes of various shapes.

use note_vault::envelope::{decrypt_memory, encrypt_memory};
use note_vault::key::Key;
use note_vault::memory::Memory;
use note_vault::note::Note;
use note_vault::store::save_memory;
use note_vault::timestamp::Timestamp;
use rand::RngCore;

fn test_key() -> Key {
    let mut key_bytes = [0u8; 32];
    rand::thread_rng().fill_bytes(&mut key_bytes);
    Key::from_bytes(key_bytes)
}

#[test]
fn test_encrypt_decrypt_integrity() {
    let key = test_key();
    let mut memory = Memory::default();
    memory.record(
        "test1",
        Note::new("value1", &vec!["tag1".to_string()], Timestamp::now()),
    );
    let encrypted = encrypt_memory(&memory, &key).expect("encryption failed");
    let decrypted = decrypt_memory(&encrypted, &key).expect("decryption failed");
    assert_eq!(
        memory.get("test1").unwrap().value(),
        decrypted.get("test1").unwrap().value()
    );
    assert_eq!(
        memory.get("test1").unwrap().tags(),
        decrypted.get("test1").unwrap().tags()
    );
}

#[test]
fn test_memory_save_load_various_types() {
    let key = test_key();
    let mut memory = Memory::default();
    let long_string = "a".repeat(1000);
    let cases = vec![
        ("int", "42"),
        ("float", "3.14"),
        ("unicode", "ä½ å¥½ä¸–ç•Œ"),
        ("emoji", "ðŸš€âœ¨"),
        ("long", long_string.as_str()),
    ];
    for (k, v) in &cases {
        save_memory(&mut memory, &key, k, v, &[]).expect("save failed");
    }
    let encrypted = encrypt_memory(&memory, &key).expect("encryption failed");
    let loaded = decrypt_memory(&encrypted, &key).expect("decryption failed");
    for (k, v) in &cases {
        assert_eq!(loaded.get(k).unwrap().value(), *v);
    }
}
