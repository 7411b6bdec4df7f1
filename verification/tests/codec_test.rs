// The byte layout of a memory: exact encodings, what the decoder accepts and
// refuses, and agreement with bincode's default configuration.

use std::collections::HashMap;

use note_vault::codec::{decode_memory, encode_memory};
use note_vault::memory::Memory;
use note_vault::note::Note;
use note_vault::timestamp::Timestamp;

fn count(n: u64) -> Vec<u8> {
    n.to_le_bytes().to_vec()
}

fn text(s: &str) -> Vec<u8> {
    let mut out = count(s.len() as u64);
    out.extend_from_slice(s.as_bytes());
    out
}

fn sample() -> Memory {
    let mut memory = Memory::new();
    memory.record(
        "k1",
        Note::new(
            "v1",
            &["tag1".to_string(), "t2".to_string()],
            Timestamp::parse("2024-05-01T12:34:56Z").unwrap(),
        ),
    );
    memory.record(
        "",
        Note::new("", &[], Timestamp::parse("2024-05-01T12:34:57.5Z").unwrap()),
    );
    memory
}

fn flat(memory: &Memory) -> (Vec<(String, (String, Vec<String>, String))>, Vec<String>) {
    let entries = memory
        .entries()
        .iter()
        .map(|(key, note)| {
            (
                key.clone(),
                (
                    note.value().to_string(),
                    note.tags().clone(),
                    note.timestamp().as_str().to_string(),
                ),
            )
        })
        .collect();
    (entries, memory.history().clone())
}

#[test]
fn empty_memory_is_sixteen_zero_bytes() {
    assert_eq!(encode_memory(&Memory::new()), vec![0u8; 16]);
}

#[test]
fn one_note_is_laid_out_field_by_field() {
    let mut memory = Memory::new();
    memory.record(
        "k1",
        Note::new("v1", &["tag1".to_string()], Timestamp::parse("2024-05-01T12:34:56Z").unwrap()),
    );
    let mut expected = Vec::new();
    expected.extend(count(1)); // one entry
    expected.extend(text("k1"));
    expected.extend(text("v1"));
    expected.extend(count(1)); // one tag
    expected.extend(text("tag1"));
    expected.extend(text("2024-05-01T12:34:56Z"));
    expected.extend(count(1)); // one history entry
    expected.extend(text("save:k1"));
    assert_eq!(encode_memory(&memory), expected);
    assert_eq!(
        &expected[..18],
        &[1, 0, 0, 0, 0, 0, 0, 0, 2, 0, 0, 0, 0, 0, 0, 0, b'k', b'1']
    );
}

#[test]
fn text_length_counts_bytes_not_characters() {
    let mut memory = Memory::new();
    memory.record("é", Note::new("", &[], Timestamp::parse("2024-05-01T12:34:56Z").unwrap()));
    let bytes = encode_memory(&memory);
    assert_eq!(&bytes[8..18], &[2, 0, 0, 0, 0, 0, 0, 0, 0xc3, 0xa9]);
}

#[test]
fn decoding_reads_back_what_encoding_wrote() {
    let memory = sample();
    let decoded = decode_memory(&encode_memory(&memory)).unwrap();
    assert_eq!(flat(&decoded), flat(&memory));
    assert_eq!(decoded.history(), &vec!["save:k1".to_string(), "save:".to_string()]);
}

#[test]
fn encoding_agrees_with_bincode() {
    let memory = sample();
    assert_eq!(encode_memory(&memory), bincode::serialize(&flat(&memory)).unwrap());
}

#[test]
fn decoder_reads_what_bincode_writes_for_a_map_of_notes() {
    let stamp = "2018-01-26T18:30:09.453Z".parse::<chrono::DateTime<chrono::Utc>>().unwrap();
    let mut items: HashMap<String, (String, Vec<String>, chrono::DateTime<chrono::Utc>)> =
        HashMap::new();
    items.insert("a".to_string(), ("1".to_string(), vec!["x".to_string()], stamp));
    items.insert("b".to_string(), ("2".to_string(), vec![], stamp));
    let history = vec!["save:a".to_string(), "save:b".to_string()];
    let bytes = bincode::serialize(&(items, history.clone())).unwrap();
    let memory = decode_memory(&bytes).unwrap();
    assert_eq!(memory.len(), 2);
    assert_eq!(memory.get("a").unwrap().value(), "1");
    assert_eq!(memory.get("a").unwrap().tags(), &vec!["x".to_string()]);
    assert_eq!(memory.get("a").unwrap().timestamp().as_str(), "2018-01-26T18:30:09.453Z");
    assert_eq!(memory.get("b").unwrap().value(), "2");
    assert_eq!(memory.history(), &history);
}

#[test]
fn every_cut_of_an_encoding_is_refused() {
    let bytes = encode_memory(&sample());
    for len in 0..bytes.len() {
        assert!(decode_memory(&bytes[..len]).is_none(), "cut at {}", len);
    }
}

#[test]
fn bytes_behind_the_history_are_ignored() {
    let memory = sample();
    let mut bytes = encode_memory(&memory);
    bytes.extend_from_slice(&[0xff, 0x00, 0x7f]);
    assert_eq!(flat(&decode_memory(&bytes).unwrap()), flat(&memory));
}

#[test]
fn text_that_is_not_utf8_is_refused() {
    let mut bytes = Vec::new();
    bytes.extend(count(1));
    bytes.extend(count(2));
    bytes.extend_from_slice(&[0xc3, 0x28]); // a key that is not UTF-8
    bytes.extend(text("v"));
    bytes.extend(count(0));
    bytes.extend(text("2024-05-01T12:34:56Z"));
    bytes.extend(count(0));
    assert!(decode_memory(&bytes).is_none());
    // The same layout with a well-formed key is accepted.
    bytes[16] = b'o';
    bytes[17] = b'k';
    assert_eq!(decode_memory(&bytes).unwrap().get("ok").unwrap().value(), "v");
}

#[test]
fn a_count_beyond_the_bytes_is_refused() {
    let mut bytes = count(u64::MAX);
    bytes.extend(count(0));
    assert!(decode_memory(&bytes).is_none());
    let mut bytes = count(0);
    bytes.extend(count(1));
    bytes.extend(count(u64::MAX)); // a text longer than anything that follows
    bytes.extend_from_slice(b"abc");
    assert!(decode_memory(&bytes).is_none());
}

#[test]
fn a_key_that_comes_twice_keeps_the_later_note() {
    let mut bytes = Vec::new();
    bytes.extend(count(3));
    for (key, value) in [("a", "first"), ("b", "other"), ("a", "second")] {
        bytes.extend(text(key));
        bytes.extend(text(value));
        bytes.extend(count(0));
        bytes.extend(text("2024-05-01T12:34:56Z"));
    }
    bytes.extend(count(0));
    let memory = decode_memory(&bytes).unwrap();
    assert_eq!(memory.len(), 2);
    assert_eq!(memory.get("a").unwrap().value(), "second");
    assert_eq!(memory.get("b").unwrap().value(), "other");
    assert_eq!(memory.entries()[0].0, "a");
    assert_eq!(memory.entries()[1].0, "b");
}

#[test]
fn the_encoding_depends_on_notes_and_history_alone() {
    // The same notes come in in another order; the histories are the same.
    let mut bytes = Vec::new();
    for order in [["a", "b", "c"], ["c", "a", "b"]] {
        let mut wire = Vec::new();
        wire.extend(count(3));
        for key in order {
            wire.extend(text(key));
            wire.extend(text(&key.to_uppercase()));
            wire.extend(count(0));
            wire.extend(text("2024-05-01T12:34:56Z"));
        }
        wire.extend(count(1));
        wire.extend(text("save:a"));
        bytes.push(encode_memory(&decode_memory(&wire).unwrap()));
    }
    assert_eq!(bytes[0], bytes[1]);
    assert_eq!(decode_memory(&bytes[0]).unwrap().get("b").unwrap().value(), "B");
}

#[test]
fn entries_are_read_in_any_order_and_written_in_key_order() {
    let mut wire = Vec::new();
    wire.extend(count(2));
    for key in ["b", "a"] {
        wire.extend(text(key));
        wire.extend(text("v"));
        wire.extend(count(0));
        wire.extend(text("2024-05-01T12:34:56Z"));
    }
    wire.extend(count(0));
    let memory = decode_memory(&wire).unwrap();
    assert_eq!(memory.entries()[0].0, "a");
    assert_eq!(memory.entries()[1].0, "b");
    let written = encode_memory(&memory);
    assert_ne!(written, wire);
    assert_eq!(&written[16..17], b"a");
}

#[test]
fn a_timestamp_that_is_no_time_is_refused() {
    for written in ["", "T", "yesterday", "2024-13-01T00:00:00Z", "2024-05-01"] {
        let mut wire = Vec::new();
        wire.extend(count(1));
        wire.extend(text("k"));
        wire.extend(text("v"));
        wire.extend(count(0));
        wire.extend(text(written));
        wire.extend(count(0));
        assert!(decode_memory(&wire).is_none(), "{:?}", written);
    }
}

#[test]
fn a_timestamp_is_read_into_canonical_form() {
    let mut wire = Vec::new();
    wire.extend(count(1));
    wire.extend(text("k"));
    wire.extend(text("v"));
    wire.extend(count(0));
    wire.extend(text("2012-12-12 12:12:12.500+01:00"));
    wire.extend(count(0));
    let memory = decode_memory(&wire).unwrap();
    assert_eq!(memory.get("k").unwrap().timestamp().as_str(), "2012-12-12T11:12:12.500Z");
    // Written again, it reads back as itself.
    let again = decode_memory(&encode_memory(&memory)).unwrap();
    assert_eq!(again.get("k").unwrap().timestamp().as_str(), "2012-12-12T11:12:12.500Z");
}
