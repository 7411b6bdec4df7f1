// The envelope: what encryption produces, and what decryption accepts and
// refuses.

use note_vault::envelope::{
    decode_payload, decrypt_memory, encrypt_memory, open_payload, seal_memory, seal_payload,
};
use note_vault::codec::encode_memory;
use note_vault::error::StoreError;
use note_vault::key::Key;
use note_vault::memory::Memory;
use note_vault::note::Note;
use note_vault::timestamp::Timestamp;

fn key_of(byte: u8) -> Key {
    Key::from_bytes([byte; 32])
}

fn sample() -> Memory {
    let mut memory = Memory::new();
    memory.record(
        "k1",
        Note::new("v1", &["tag1".to_string()], Timestamp::parse("2024-05-01T12:34:56Z").unwrap()),
    );
    memory
}

fn same(a: &Memory, b: &Memory) -> bool {
    a.history() == b.history()
        && a.len() == b.len()
        && a.entries().iter().zip(b.entries().iter()).all(|(x, y)| {
            x.0 == y.0
                && x.1.value() == y.1.value()
                && x.1.tags() == y.1.tags()
                && x.1.timestamp().as_str() == y.1.timestamp().as_str()
        })
}

#[test]
fn decrypting_an_encrypted_memory_gives_it_back() {
    let key = key_of(7);
    for memory in [Memory::new(), sample()] {
        let envelope = encrypt_memory(&memory, &key).unwrap();
        let opened = decrypt_memory(&envelope, &key).unwrap();
        assert!(same(&opened, &memory));
    }
}

#[test]
fn note_with_value_and_tag_survives_encryption() {
    let key = key_of(1);
    let envelope = encrypt_memory(&sample(), &key).unwrap();
    let opened = decrypt_memory(&envelope, &key).unwrap();
    let note = opened.get("k1").unwrap();
    assert_eq!(note.value(), "v1");
    assert_eq!(note.tags(), &vec!["tag1".to_string()]);
}

#[test]
fn an_envelope_is_nonce_ciphertext_and_tag() {
    let key = key_of(3);
    let memory = sample();
    let plaintext = encode_memory(&memory);
    let envelope = encrypt_memory(&memory, &key).unwrap();
    assert_eq!(envelope.len(), 12 + plaintext.len() + 16);
    // The plaintext is nowhere to be read in the envelope.
    assert_ne!(&envelope[12..12 + plaintext.len()], &plaintext[..]);
    let empty = encrypt_memory(&Memory::new(), &key).unwrap();
    assert_eq!(empty.len(), 12 + 16 + 16);
}

#[test]
fn every_encryption_draws_a_nonce_of_its_own() {
    let key = key_of(3);
    let memory = sample();
    let first = encrypt_memory(&memory, &key).unwrap();
    let second = encrypt_memory(&memory, &key).unwrap();
    assert_ne!(&first[..12], &second[..12]);
    assert_ne!(first, second);
}

#[test]
fn sealing_with_a_given_nonce_is_repeatable() {
    // RFC 8439 is a function of key, nonce and plaintext.
    let key = key_of(9);
    let nonce = [5u8; 12];
    let first = seal_memory(&sample(), &key, &nonce).unwrap();
    let second = seal_memory(&sample(), &key, &nonce).unwrap();
    assert_eq!(first, second);
    assert_eq!(&first[..12], &nonce);
    assert!(same(&decrypt_memory(&first, &key).unwrap(), &sample()));
    let other = seal_memory(&sample(), &key, &[6u8; 12]).unwrap();
    assert_ne!(&first[12..], &other[12..]);
}

#[test]
fn sealing_matches_the_published_test_vector() {
    // RFC 8439, section 2.8.2, without the associated data of that example:
    // the ciphertext depends on key, nonce and plaintext only.
    let key = Key::from_bytes([
        0x80, 0x81, 0x82, 0x83, 0x84, 0x85, 0x86, 0x87, 0x88, 0x89, 0x8a, 0x8b, 0x8c, 0x8d, 0x8e,
        0x8f, 0x90, 0x91, 0x92, 0x93, 0x94, 0x95, 0x96, 0x97, 0x98, 0x99, 0x9a, 0x9b, 0x9c, 0x9d,
        0x9e, 0x9f,
    ]);
    let nonce = [0x07, 0x00, 0x00, 0x00, 0x40, 0x41, 0x42, 0x43, 0x44, 0x45, 0x46, 0x47];
    let plaintext = b"Ladies and Gentlemen of the class of '99: If I could offer you only one tip for the future, sunscreen would be it.";
    let envelope = seal_payload(plaintext, &key, &nonce).unwrap();
    assert_eq!(&envelope[..12], &nonce);
    assert_eq!(
        &envelope[12..28],
        &[
            0xd3, 0x1a, 0x8d, 0x34, 0x64, 0x8e, 0x60, 0xdb, 0x7b, 0x86, 0xaf, 0xbc, 0x53, 0xef,
            0x7e, 0xc2
        ]
    );
    assert_eq!(envelope.len(), 12 + plaintext.len() + 16);
    assert_eq!(open_payload(&envelope, &key).unwrap(), plaintext.to_vec());
}

#[test]
fn short_envelopes_are_refused_as_too_short() {
    let key = key_of(2);
    for len in 0..12usize {
        let bytes = vec![0xabu8; len];
        assert_eq!(decrypt_memory(&bytes, &key).unwrap_err(), StoreError::EnvelopeTooShort);
        assert_eq!(open_payload(&bytes, &key).unwrap_err(), StoreError::EnvelopeTooShort);
    }
}

#[test]
fn envelopes_without_room_for_a_tag_fail_authentication() {
    let key = key_of(2);
    for len in 12..28usize {
        let bytes = vec![0xabu8; len];
        assert_eq!(decrypt_memory(&bytes, &key).unwrap_err(), StoreError::AuthenticationFailed);
    }
}

#[test]
fn a_different_key_fails_authentication() {
    let envelope = encrypt_memory(&sample(), &key_of(1)).unwrap();
    assert_eq!(
        decrypt_memory(&envelope, &key_of(2)).unwrap_err(),
        StoreError::AuthenticationFailed
    );
    let mut nearly = [1u8; 32];
    nearly[31] = 0;
    assert_eq!(
        decrypt_memory(&envelope, &Key::from_bytes(nearly)).unwrap_err(),
        StoreError::AuthenticationFailed
    );
}

#[test]
fn corrupting_any_ciphertext_byte_of_an_empty_memory_fails_authentication() {
    let key = key_of(4);
    let envelope = encrypt_memory(&Memory::new(), &key).unwrap();
    for at in 12..envelope.len() {
        let mut corrupted = envelope.clone();
        corrupted[at] ^= 0x01;
        assert_eq!(
            decrypt_memory(&corrupted, &key).unwrap_err(),
            StoreError::AuthenticationFailed,
            "byte {}",
            at
        );
    }
}

#[test]
fn a_changed_nonce_fails_authentication() {
    let key = key_of(4);
    let envelope = encrypt_memory(&sample(), &key).unwrap();
    for at in 0..12 {
        let mut corrupted = envelope.clone();
        corrupted[at] ^= 0x80;
        assert_eq!(
            decrypt_memory(&corrupted, &key).unwrap_err(),
            StoreError::AuthenticationFailed
        );
    }
}

#[test]
fn a_cut_or_lengthened_envelope_fails_authentication() {
    let key = key_of(4);
    let envelope = encrypt_memory(&sample(), &key).unwrap();
    let cut = &envelope[..envelope.len() - 1];
    assert_eq!(decrypt_memory(cut, &key).unwrap_err(), StoreError::AuthenticationFailed);
    let mut longer = envelope.clone();
    longer.push(0);
    assert_eq!(decrypt_memory(&longer, &key).unwrap_err(), StoreError::AuthenticationFailed);
}

#[test]
fn an_authentic_envelope_of_something_else_is_malformed() {
    let key = key_of(5);
    let nonce = [1u8; 12];
    for plaintext in [&b""[..], &b"not a memory"[..], &[1, 0, 0, 0, 0, 0, 0, 0][..]] {
        let envelope = seal_payload(plaintext, &key, &nonce).unwrap();
        assert_eq!(open_payload(&envelope, &key).unwrap(), plaintext.to_vec());
        assert_eq!(decrypt_memory(&envelope, &key).unwrap_err(), StoreError::MalformedPayload);
        assert_eq!(decode_payload(plaintext).unwrap_err(), StoreError::MalformedPayload);
    }
}

#[test]
fn a_payload_that_is_a_memory_decodes() {
    let payload = encode_memory(&sample());
    assert!(same(&decode_payload(&payload).unwrap(), &sample()));
}

#[test]
fn errors_describe_themselves() {
    assert_eq!(StoreError::InvalidKeyLength.message(), "invalid master key length");
    assert_eq!(StoreError::EnvelopeTooShort.message(), "encrypted data too short");
    assert_eq!(StoreError::AuthenticationFailed.message(), "authentication failed");
    assert_eq!(StoreError::MalformedPayload.message(), "malformed payload");
    assert_eq!(StoreError::PayloadTooLarge.message(), "payload too large");
    assert_eq!(StoreError::InvalidRecoveryToken.message(), "invalid recovery token");
}

#[test]
fn the_same_notes_in_another_order_seal_to_the_same_bytes() {
    let key = key_of(11);
    let nonce = [3u8; 12];
    let note = |v: &str| Note::new(v, &[], Timestamp::parse("2024-05-01T12:34:56Z").unwrap());
    // Two memories that hold the same notes and the same history.
    let mut first = Memory::new();
    first.record("b", note("2"));
    let mut one = first.duplicate();
    one.record("a", note("1"));
    one.record("c", note("3"));
    let mut other = first.duplicate();
    other.record("c", note("3"));
    other.record("a", note("1"));
    other.undo();
    other.undo();
    other.record("a", note("1"));
    other.record("c", note("3"));
    assert_eq!(one.history(), other.history());
    assert_eq!(
        seal_memory(&one, &key, &nonce).unwrap(),
        seal_memory(&other, &key, &nonce).unwrap()
    );
}

#[test]
fn an_authentic_memory_with_a_timestamp_that_is_no_time_is_malformed() {
    let key = key_of(12);
    let mut plaintext = Vec::new();
    let text = |s: &str| {
        let mut out = (s.len() as u64).to_le_bytes().to_vec();
        out.extend_from_slice(s.as_bytes());
        out
    };
    plaintext.extend_from_slice(&1u64.to_le_bytes());
    plaintext.extend(text("k"));
    plaintext.extend(text("v"));
    plaintext.extend_from_slice(&0u64.to_le_bytes());
    plaintext.extend(text("no time"));
    plaintext.extend_from_slice(&0u64.to_le_bytes());
    let envelope = seal_payload(&plaintext, &key, &[0u8; 12]).unwrap();
    assert_eq!(decrypt_memory(&envelope, &key).unwrap_err(), StoreError::MalformedPayload);
}
