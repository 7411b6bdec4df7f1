// The operations of the store, each with the envelope that it hands out.

use note_vault::envelope::{decrypt_memory, encrypt_memory};
use note_vault::error::StoreError;
use note_vault::key::Key;
use note_vault::memory::{Memory, UndoOutcome};
use note_vault::note::Note;
use note_vault::store::{
    export_memory, get_memory, import_memory, load_memory, profile_store_name, save_memory,
    save_note, search_notes, show_notes_by_tag, switch_user, undo_last,
};
use note_vault::timestamp::Timestamp;

fn key_of(byte: u8) -> Key {
    Key::from_bytes([byte; 32])
}

fn keys(found: &[(String, Note)]) -> Vec<String> {
    found.iter().map(|(key, _)| key.clone()).collect()
}

#[test]
fn save_hands_out_the_envelope_of_the_new_memory() {
    let key = key_of(1);
    let mut memory = Memory::new();
    let envelope = save_memory(&mut memory, &key, "k1", "v1", &["tag1".to_string()]).unwrap();
    assert_eq!(memory.get("k1").unwrap().value(), "v1");
    assert_eq!(memory.history(), &vec!["save:k1".to_string()]);
    let stored = decrypt_memory(&envelope, &key).unwrap();
    assert_eq!(stored.get("k1").unwrap().value(), "v1");
    assert_eq!(stored.get("k1").unwrap().tags(), &vec!["tag1".to_string()]);
    assert_eq!(
        stored.get("k1").unwrap().timestamp().as_str(),
        memory.get("k1").unwrap().timestamp().as_str()
    );
    assert_eq!(stored.history(), &vec!["save:k1".to_string()]);
}

#[test]
fn save_stamps_the_note_with_a_readable_time() {
    let key = key_of(1);
    let mut memory = Memory::new();
    save_memory(&mut memory, &key, "k", "v", &[]).unwrap();
    let written = memory.get("k").unwrap().timestamp().as_str().to_string();
    let read = Timestamp::parse(&written).unwrap();
    assert_eq!(read.as_str(), written);
    assert!(written.ends_with('Z'));
    assert!(written.as_str() > "2024-01-01T00:00:00Z");
}

#[test]
fn save_note_keeps_the_note_as_given() {
    let key = key_of(1);
    let mut memory = Memory::new();
    let note = Note::new("v", &["t".to_string()], Timestamp::parse("1999-12-31T23:59:59Z").unwrap());
    let envelope = save_note(&mut memory, &key, "k", note).unwrap();
    let stored = decrypt_memory(&envelope, &key).unwrap();
    assert_eq!(stored.get("k").unwrap().timestamp().as_str(), "1999-12-31T23:59:59Z");
}

#[test]
fn empty_key_and_value_round_trip() {
    let key = key_of(2);
    let mut memory = Memory::new();
    let envelope = save_memory(&mut memory, &key, "", "", &[]).unwrap();
    let stored = decrypt_memory(&envelope, &key).unwrap();
    assert_eq!(stored.len(), 1);
    assert_eq!(stored.get("").unwrap().value(), "");
    assert!(stored.get("").unwrap().tags().is_empty());
    assert_eq!(stored.history(), &vec!["save:".to_string()]);
}

#[test]
fn get_is_a_lookup() {
    let key = key_of(2);
    let mut memory = Memory::new();
    save_memory(&mut memory, &key, "a", "1", &[]).unwrap();
    assert_eq!(get_memory(&memory, "a").unwrap().value(), "1");
    assert!(get_memory(&memory, "b").is_none());
    assert!(get_memory(&memory, "A").is_none());
    assert_eq!(memory.len(), 1);
}

#[test]
fn search_and_tag_filter_go_through_the_store() {
    let key = key_of(2);
    let mut memory = Memory::new();
    save_memory(&mut memory, &key, "alpha", "one", &["x".to_string()]).unwrap();
    save_memory(&mut memory, &key, "beta", "two", &["xy".to_string()]).unwrap();
    assert_eq!(keys(&search_notes(&memory, "x")), vec!["alpha".to_string(), "beta".to_string()]);
    assert_eq!(keys(&search_notes(&memory, "two")), vec!["beta".to_string()]);
    assert_eq!(keys(&show_notes_by_tag(&memory, "x")), vec!["alpha".to_string()]);
    assert_eq!(keys(&show_notes_by_tag(&memory, "xy")), vec!["beta".to_string()]);
}

#[test]
fn save_then_undo_yields_an_empty_store() {
    let key = key_of(3);
    let mut memory = Memory::new();
    save_memory(&mut memory, &key, "k1", "v1", &[]).unwrap();
    let undone = undo_last(&mut memory, &key).unwrap();
    assert!(matches!(undone.outcome, UndoOutcome::UndidSave(ref k) if k == "k1"));
    assert!(memory.get("k1").is_none());
    assert!(memory.history().is_empty());
    let stored = decrypt_memory(&undone.envelope.unwrap(), &key).unwrap();
    assert!(stored.is_empty());
    assert!(stored.history().is_empty());
}

#[test]
fn undo_with_nothing_to_undo_writes_nothing() {
    let key = key_of(3);
    let mut memory = Memory::new();
    let undone = undo_last(&mut memory, &key).unwrap();
    assert!(matches!(undone.outcome, UndoOutcome::NothingToUndo));
    assert!(undone.envelope.is_none());
    assert!(memory.is_empty());
}

#[test]
fn undo_drops_a_history_entry_that_is_no_save() {
    let key = key_of(3);
    // A memory whose history holds something other than a save.
    let mut bytes = Vec::new();
    bytes.extend_from_slice(&0u64.to_le_bytes());
    bytes.extend_from_slice(&1u64.to_le_bytes());
    bytes.extend_from_slice(&6u64.to_le_bytes());
    bytes.extend_from_slice(b"import");
    let mut memory = note_vault::codec::decode_memory(&bytes).unwrap();
    let undone = undo_last(&mut memory, &key).unwrap();
    assert!(matches!(undone.outcome, UndoOutcome::Dropped(ref entry) if entry == "import"));
    assert!(memory.history().is_empty());
    assert!(undone.envelope.is_some());
}

#[test]
fn export_does_not_change_the_memory() {
    let key = key_of(4);
    let mut memory = Memory::new();
    save_memory(&mut memory, &key, "a", "1", &[]).unwrap();
    let envelope = export_memory(&memory, &key).unwrap();
    assert_eq!(memory.len(), 1);
    assert_eq!(memory.history().len(), 1);
    let exported = decrypt_memory(&envelope, &key).unwrap();
    assert_eq!(exported.get("a").unwrap().value(), "1");
}

#[test]
fn import_replaces_the_memory_wholesale() {
    let key = key_of(5);
    let mut other = Memory::new();
    save_memory(&mut other, &key, "b", "2", &[]).unwrap();
    let other_envelope = export_memory(&other, &key).unwrap();

    let mut memory = Memory::new();
    save_memory(&mut memory, &key, "a", "1", &[]).unwrap();
    import_memory(&mut memory, &other_envelope, &key).unwrap();
    assert!(memory.get("a").is_none());
    assert_eq!(memory.get("b").unwrap().value(), "2");
    assert_eq!(memory.history(), &vec!["save:b".to_string()]);
}

#[test]
fn import_keeps_a_key_that_the_envelope_holds() {
    let key = key_of(5);
    let mut other = Memory::new();
    save_memory(&mut other, &key, "a", "from the envelope", &[]).unwrap();
    let other_envelope = export_memory(&other, &key).unwrap();

    let mut memory = Memory::new();
    save_memory(&mut memory, &key, "a", "1", &[]).unwrap();
    import_memory(&mut memory, &other_envelope, &key).unwrap();
    assert_eq!(memory.get("a").unwrap().value(), "from the envelope");
}

#[test]
fn a_failed_import_leaves_the_memory_alone() {
    let key = key_of(5);
    let mut memory = Memory::new();
    save_memory(&mut memory, &key, "a", "1", &[]).unwrap();
    let foreign = encrypt_memory(&Memory::new(), &key_of(6)).unwrap();
    assert_eq!(
        import_memory(&mut memory, &foreign, &key).unwrap_err(),
        StoreError::AuthenticationFailed
    );
    assert_eq!(
        import_memory(&mut memory, &[1, 2, 3], &key).unwrap_err(),
        StoreError::EnvelopeTooShort
    );
    assert_eq!(memory.get("a").unwrap().value(), "1");
    assert_eq!(memory.history(), &vec!["save:a".to_string()]);
}

#[test]
fn load_decrypts_what_is_stored() {
    let key = key_of(6);
    let mut memory = Memory::new();
    let envelope = save_memory(&mut memory, &key, "a", "1", &[]).unwrap();
    let loaded = load_memory(Some(&envelope), &key).unwrap();
    assert_eq!(loaded.get("a").unwrap().value(), "1");
    assert_eq!(
        load_memory(Some(&envelope), &key_of(7)).unwrap_err(),
        StoreError::AuthenticationFailed
    );
    assert_eq!(load_memory(Some(&[]), &key).unwrap_err(), StoreError::EnvelopeTooShort);
    assert!(load_memory(None, &key).unwrap().is_empty());
}

#[test]
fn a_profile_store_is_named_after_the_profile() {
    assert_eq!(profile_store_name("alice"), "memory_alice.bin");
    assert_eq!(profile_store_name(""), "memory_.bin");
    assert_eq!(profile_store_name("a b"), "memory_a b.bin");
}

#[test]
fn switching_to_a_new_profile_starts_it_empty() {
    let key = key_of(8);
    let plan = switch_user(None, &key).unwrap();
    let created = plan.create.unwrap();
    assert_eq!(created, plan.activate);
    assert!(decrypt_memory(&plan.activate, &key).unwrap().is_empty());
}

#[test]
fn switching_to_a_known_profile_activates_its_store_as_it_is() {
    let key = key_of(8);
    let stored = vec![9u8; 40];
    let plan = switch_user(Some(stored.clone()), &key).unwrap();
    assert!(plan.create.is_none());
    assert_eq!(plan.activate, stored);
}
