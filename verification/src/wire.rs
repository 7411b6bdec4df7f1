//! The byte layout of a memory.
//!
//! ```text
//! memory  := entries history
//! entries := count entry*          count: how many entries follow
//! entry   := text note             the key, then the note
//! note    := text tags text        value, tags, timestamp (a written time)
//! tags    := count text*
//! history := count text*
//! text    := count byte*           count: how many bytes follow; UTF-8
//! count   := 8 bytes, little-endian
//! ```
//!
//! The entries are written in the order of their keys, so that the bytes
//! depend on what the memory holds and not on how it came to hold it; they
//! are read in any order. Whatever follows the history is ignored.
//!
//! This is the layout that the bincode crate, in its default configuration,
//! gives to a map from text to (text, list of text, text) followed by a list
//! of text: a store written that way reads back here, and the other way
//! round.

use vstd::prelude::*;
use vstd::bytes::{lemma_auto_spec_u64_to_from_le_bytes, spec_u64_from_le_bytes, spec_u64_to_le_bytes};
use vstd::utf8::{decode_utf8, encode_utf8, encode_utf8_decode_utf8, encode_utf8_valid_utf8, valid_utf8};
use crate::memory::{lemma_content_decides, lemma_gathered_in_order, MemoryView};
use crate::note::NoteView;
use crate::timestamp::timestamp_canonical;

verus! {

/// The largest number that a count can hold.
pub open spec fn max_count() -> nat {
    u64::MAX as nat
}

/// A count: eight bytes, least significant first.
pub open spec fn encode_count(n: nat) -> Seq<u8> {
    spec_u64_to_le_bytes(n as u64)
}

/// Reads a count from the front of `bytes`; gives it with the bytes that
/// follow it.
pub open spec fn parse_count(bytes: Seq<u8>) -> Option<(nat, Seq<u8>)> {
    if bytes.len() < 8 {
        None
    } else {
        Some((spec_u64_from_le_bytes(bytes.take(8)) as nat, bytes.skip(8)))
    }
}

/// A text: the number of bytes of its UTF-8 form, then those bytes.
pub open spec fn encode_text(text: Seq<char>) -> Seq<u8> {
    encode_count(encode_utf8(text).len()) + encode_utf8(text)
}

/// Reads a text from the front of `bytes`. There is none if the count is
/// cut short, if fewer bytes follow than it announces, or if they are not
/// UTF-8.
pub open spec fn parse_text(bytes: Seq<u8>) -> Option<(Seq<char>, Seq<u8>)> {
    match parse_count(bytes) {
        None => None,
        Some((n, rest)) => if rest.len() < n || !valid_utf8(rest.take(n as int)) {
            None
        } else {
            Some((decode_utf8(rest.take(n as int)), rest.skip(n as int)))
        },
    }
}

/// The encodings of the items, one after the other.
pub open spec fn encode_each<T>(items: Seq<T>, encode: spec_fn(T) -> Seq<u8>) -> Seq<u8>
    decreases items.len(),
{
    if items.len() == 0 {
        Seq::empty()
    } else {
        encode_each(items.drop_last(), encode) + encode(items.last())
    }
}

/// Reads `count` items, one after the other, from the front of `bytes`.
pub open spec fn parse_each<T>(
    bytes: Seq<u8>,
    count: nat,
    parse: spec_fn(Seq<u8>) -> Option<(T, Seq<u8>)>,
) -> Option<(Seq<T>, Seq<u8>)>
    decreases count,
{
    if count == 0 {
        Some((Seq::empty(), bytes))
    } else {
        match parse(bytes) {
            None => None,
            Some((first, rest)) => match parse_each(rest, (count - 1) as nat, parse) {
                None => None,
                Some((others, end)) => Some((seq![first] + others, end)),
            },
        }
    }
}

/// A list: the number of items, then the items.
pub open spec fn encode_list<T>(items: Seq<T>, encode: spec_fn(T) -> Seq<u8>) -> Seq<u8> {
    encode_count(items.len()) + encode_each(items, encode)
}

/// Reads a list from the front of `bytes`.
pub open spec fn parse_list<T>(
    bytes: Seq<u8>,
    parse: spec_fn(Seq<u8>) -> Option<(T, Seq<u8>)>,
) -> Option<(Seq<T>, Seq<u8>)> {
    match parse_count(bytes) {
        None => None,
        Some((count, rest)) => parse_each(rest, count, parse),
    }
}

/// [`encode_text`] as a value.
pub open spec fn text_encoder() -> spec_fn(Seq<char>) -> Seq<u8> {
    |text: Seq<char>| encode_text(text)
}

/// [`parse_text`] as a value.
pub open spec fn text_parser() -> spec_fn(Seq<u8>) -> Option<(Seq<char>, Seq<u8>)> {
    |bytes: Seq<u8>| parse_text(bytes)
}

/// A note: its value, its tags, its timestamp.
pub open spec fn encode_note(note: NoteView) -> Seq<u8> {
    encode_text(note.value) + encode_list(note.tags, text_encoder()) + encode_text(note.timestamp)
}

/// Reads a note from the front of `bytes`. The timestamp has to be a written
/// time, and is taken in its canonical form.
pub open spec fn parse_note(bytes: Seq<u8>) -> Option<(NoteView, Seq<u8>)> {
    match parse_text(bytes) {
        None => None,
        Some((value, after_value)) => match parse_list(after_value, text_parser()) {
            None => None,
            Some((tags, after_tags)) => match parse_text(after_tags) {
                None => None,
                Some((written, rest)) => match timestamp_canonical(written) {
                    None => None,
                    Some(timestamp) => Some((NoteView { value, tags, timestamp }, rest)),
                },
            },
        },
    }
}

/// An entry: the key, then the note.
pub open spec fn encode_entry(entry: (Seq<char>, NoteView)) -> Seq<u8> {
    encode_text(entry.0) + encode_note(entry.1)
}

/// Reads an entry from the front of `bytes`.
pub open spec fn parse_entry(bytes: Seq<u8>) -> Option<((Seq<char>, NoteView), Seq<u8>)> {
    match parse_text(bytes) {
        None => None,
        Some((key, after_key)) => match parse_note(after_key) {
            None => None,
            Some((note, rest)) => Some(((key, note), rest)),
        },
    }
}

/// [`encode_entry`] as a value.
pub open spec fn entry_encoder() -> spec_fn((Seq<char>, NoteView)) -> Seq<u8> {
    |entry: (Seq<char>, NoteView)| encode_entry(entry)
}

/// [`parse_entry`] as a value.
pub open spec fn entry_parser() -> spec_fn(Seq<u8>) -> Option<((Seq<char>, NoteView), Seq<u8>)> {
    |bytes: Seq<u8>| parse_entry(bytes)
}

/// The bytes that stand for a memory: its entries in their order, then its
/// history.
pub open spec fn encode_memory(memory: MemoryView) -> Seq<u8> {
    encode_list(memory.entries, entry_encoder()) + encode_list(memory.history, text_encoder())
}

/// The memory that `bytes` stand for, if they stand for one. Where a key
/// comes twice among the entries, the later note takes the place of the
/// earlier one. Bytes behind the history are not looked at.
pub open spec fn decode_memory(bytes: Seq<u8>) -> Option<MemoryView> {
    match parse_list(bytes, entry_parser()) {
        None => None,
        Some((raw, after_entries)) => match parse_list(after_entries, text_parser()) {
            None => None,
            Some((history, _rest)) => Some(
                MemoryView { entries: MemoryView::gathered(raw).entries, history },
            ),
        },
    }
}

/// The UTF-8 form of the text is short enough for its length to be written.
pub open spec fn text_fits(text: Seq<char>) -> bool {
    encode_utf8(text).len() <= max_count()
}

/// Every text of the list can be written, and so can their number.
pub open spec fn texts_fit(texts: Seq<Seq<char>>) -> bool {
    &&& texts.len() <= max_count()
    &&& forall|i: int| 0 <= i < texts.len() ==> text_fits(#[trigger] texts[i])
}

/// Every part of the note can be written.
pub open spec fn note_fits(note: NoteView) -> bool {
    &&& text_fits(note.value)
    &&& texts_fit(note.tags)
    &&& text_fits(note.timestamp)
}

/// The key and the note can be written.
pub open spec fn entry_fits(entry: (Seq<char>, NoteView)) -> bool {
    text_fits(entry.0) && note_fits(entry.1)
}

/// Every count in the encoding of the memory fits into eight bytes. This
/// holds of every memory that a program can hold.
pub open spec fn memory_fits(memory: MemoryView) -> bool {
    &&& memory.entries.len() <= max_count()
    &&& forall|i: int| 0 <= i < memory.entries.len() ==> entry_fits(#[trigger] memory.entries[i])
    &&& texts_fit(memory.history)
}

/// `parse` reads back what `encode` wrote for `item`, whatever follows it.
pub open spec fn reads_back<T>(
    encode: spec_fn(T) -> Seq<u8>,
    parse: spec_fn(Seq<u8>) -> Option<(T, Seq<u8>)>,
    item: T,
) -> bool {
    forall|rest: Seq<u8>| #[trigger] parse(encode(item) + rest) == Some((item, rest))
}

/// A count that fits is read back as it was written.
pub proof fn lemma_count_reads_back(n: nat, rest: Seq<u8>)
    requires
        n <= max_count(),
    ensures
        encode_count(n).len() == 8,
        parse_count(encode_count(n) + rest) == Some((n, rest)),
{
    lemma_auto_spec_u64_to_from_le_bytes();
    let written = encode_count(n);
    assert((written + rest).take(8) =~= written);
}

/// A text that fits is read back as it was written.
pub proof fn lemma_text_reads_back(text: Seq<char>, rest: Seq<u8>)
    requires
        text_fits(text),
    ensures
        parse_text(encode_text(text) + rest) == Some((text, rest)),
{
    let body = encode_utf8(text);
    let n = body.len();
    lemma_count_reads_back(n, body + rest);
    assert(encode_text(text) + rest =~= encode_count(n) + (body + rest));
    assert((body + rest).take(n as int) =~= body);
    encode_utf8_valid_utf8(text);
    encode_utf8_decode_utf8(text);
}

/// The encoding of a list that starts with `first` starts with the encoding
/// of `first`.
pub proof fn lemma_encode_each_front<T>(first: T, others: Seq<T>, encode: spec_fn(T) -> Seq<u8>)
    ensures
        encode_each(seq![first] + others, encode) == encode(first) + encode_each(others, encode),
    decreases others.len(),
{
    let all = seq![first] + others;
    if others.len() == 0 {
        assert(encode_each(all.drop_last(), encode) =~= Seq::<u8>::empty());
    } else {
        lemma_encode_each_front(first, others.drop_last(), encode);
        assert(all.drop_last() =~= seq![first] + others.drop_last());
    }
}

/// Items that are each read back are read back as a sequence.
pub proof fn lemma_each_reads_back<T>(
    items: Seq<T>,
    encode: spec_fn(T) -> Seq<u8>,
    parse: spec_fn(Seq<u8>) -> Option<(T, Seq<u8>)>,
    rest: Seq<u8>,
)
    requires
        forall|i: int| 0 <= i < items.len() ==> reads_back(encode, parse, #[trigger] items[i]),
    ensures
        parse_each(encode_each(items, encode) + rest, items.len(), parse) == Some((items, rest)),
    decreases items.len(),
{
    if items.len() == 0 {
    } else {
        let first = items.first();
        let others = items.drop_first();
        assert(items =~= seq![first] + others);
        lemma_encode_each_front(first, others, encode);
        let tail = encode_each(others, encode) + rest;
        assert(encode_each(items, encode) + rest =~= encode(first) + tail);
        lemma_each_reads_back(others, encode, parse, rest);
    }
}

/// A list whose items are each read back, and whose length fits, is read
/// back as it was written.
pub proof fn lemma_list_reads_back<T>(
    items: Seq<T>,
    encode: spec_fn(T) -> Seq<u8>,
    parse: spec_fn(Seq<u8>) -> Option<(T, Seq<u8>)>,
    rest: Seq<u8>,
)
    requires
        items.len() <= max_count(),
        forall|i: int| 0 <= i < items.len() ==> reads_back(encode, parse, #[trigger] items[i]),
    ensures
        parse_list(encode_list(items, encode) + rest, parse) == Some((items, rest)),
{
    let body = encode_each(items, encode);
    lemma_count_reads_back(items.len(), body + rest);
    assert(encode_list(items, encode) + rest =~= encode_count(items.len()) + (body + rest));
    lemma_each_reads_back(items, encode, parse, rest);
}

/// A list of texts that fit is read back as it was written.
pub proof fn lemma_texts_read_back(texts: Seq<Seq<char>>, rest: Seq<u8>)
    requires
        texts_fit(texts),
    ensures
        parse_list(encode_list(texts, text_encoder()) + rest, text_parser()) == Some((texts, rest)),
{
    assert forall|i: int| 0 <= i < texts.len() implies reads_back(
        text_encoder(),
        text_parser(),
        #[trigger] texts[i],
    ) by {
        assert forall|after: Seq<u8>| #[trigger]
            text_parser()(text_encoder()(texts[i]) + after) == Some((texts[i], after)) by {
            lemma_text_reads_back(texts[i], after);
        }
    }
    lemma_list_reads_back(texts, text_encoder(), text_parser(), rest);
}

/// A well-formed note that fits is read back as it was written.
pub proof fn lemma_note_reads_back(note: NoteView, rest: Seq<u8>)
    requires
        note_fits(note),
        note.wf(),
    ensures
        parse_note(encode_note(note) + rest) == Some((note, rest)),
{
    let tags = encode_list(note.tags, text_encoder());
    let stamp = encode_text(note.timestamp);
    assert(encode_note(note) + rest =~= encode_text(note.value) + (tags + (stamp + rest)));
    lemma_text_reads_back(note.value, tags + (stamp + rest));
    lemma_texts_read_back(note.tags, stamp + rest);
    lemma_text_reads_back(note.timestamp, rest);
}

/// An entry that fits, with a well-formed note, is read back as it was
/// written.
pub proof fn lemma_entry_reads_back(entry: (Seq<char>, NoteView), rest: Seq<u8>)
    requires
        entry_fits(entry),
        entry.1.wf(),
    ensures
        parse_entry(encode_entry(entry) + rest) == Some((entry, rest)),
{
    let note = encode_note(entry.1);
    assert(encode_entry(entry) + rest =~= encode_text(entry.0) + (note + rest));
    lemma_text_reads_back(entry.0, note + rest);
    lemma_note_reads_back(entry.1, rest);
}

/// Decoding undoes encoding: the bytes written for a well-formed memory
/// stand for that memory, also when other bytes follow them.
pub proof fn lemma_decode_encode(memory: MemoryView, trailing: Seq<u8>)
    requires
        memory.wf(),
        memory_fits(memory),
    ensures
        decode_memory(encode_memory(memory) + trailing) == Some(memory),
{
    let history = encode_list(memory.history, text_encoder());
    assert(encode_memory(memory) + trailing =~= encode_list(memory.entries, entry_encoder()) + (
    history + trailing));
    assert forall|i: int| 0 <= i < memory.entries.len() implies reads_back(
        entry_encoder(),
        entry_parser(),
        #[trigger] memory.entries[i],
    ) by {
        assert forall|after: Seq<u8>| #[trigger]
            entry_parser()(entry_encoder()(memory.entries[i]) + after) == Some(
                (memory.entries[i], after),
            ) by {
            lemma_entry_reads_back(memory.entries[i], after);
        }
    }
    lemma_list_reads_back(memory.entries, entry_encoder(), entry_parser(), history + trailing);
    lemma_texts_read_back(memory.history, trailing);
    lemma_gathered_in_order(memory.entries);
}

/// The bytes written for a memory depend on its notes and its history alone,
/// not on the order in which the notes came in: two well-formed memories with
/// the same notes under the same keys and the same history are written as
/// the same bytes.
pub proof fn lemma_encoding_follows_content(a: MemoryView, b: MemoryView)
    requires
        a.wf(),
        b.wf(),
        a.items() == b.items(),
        a.history == b.history,
    ensures
        encode_memory(a) == encode_memory(b),
{
    lemma_content_decides(a, b);
}

/// The empty memory is written as sixteen bytes: two counts of zero.
pub proof fn lemma_empty_is_short()
    ensures
        encode_memory(MemoryView::empty()).len() == 16,
{
    lemma_auto_spec_u64_to_from_le_bytes();
}

} // verus!
