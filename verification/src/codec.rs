//! Writing a memory as bytes and reading it back, in the layout that
//! [`crate::wire`] lays down.

use vstd::prelude::*;
use vstd::bytes::{u64_from_le_bytes, u64_to_le_bytes};
use vstd::slice::slice_subrange;
use vstd::string::*;
use vstd::utf8::{decode_utf8, valid_utf8};
use crate::memory::{as_memory, entries_view, put_entry, Memory, MemoryView};
use crate::note::{Note, NoteView};
use crate::text::strings_view;
use crate::timestamp::Timestamp;
use crate::wire;

verus! {

/// `String::from_utf8` of std, on a copy of the bytes. There is a text
/// exactly when the bytes are well-formed UTF-8, and it is the text that they
/// encode.
#[verifier::external_body]
fn text_from_utf8(bytes: &[u8]) -> (text: Option<String>)
    ensures
        match text {
            Some(t) => valid_utf8(bytes@) && t@ == decode_utf8(bytes@),
            None => !valid_utf8(bytes@),
        },
{
    String::from_utf8(bytes.to_vec()).ok()
}

/// Appends a count.
fn write_count(out: &mut Vec<u8>, n: usize)
    ensures
        final(out)@ == old(out)@ + wire::encode_count(n as nat),
        n <= wire::max_count(),
{
    let mut bytes = u64_to_le_bytes(n as u64);
    out.append(&mut bytes);
}

/// Appends a text.
fn write_text(out: &mut Vec<u8>, text: &str)
    ensures
        final(out)@ == old(out)@ + wire::encode_text(text@),
        wire::text_fits(text@),
{
    let bytes = text.as_bytes();
    write_count(out, bytes.len());
    out.extend_from_slice(bytes);
}

/// Appends a list of texts.
fn write_texts(out: &mut Vec<u8>, texts: &Vec<String>)
    ensures
        final(out)@ == old(out)@ + wire::encode_list(strings_view(texts@), wire::text_encoder()),
        wire::texts_fit(strings_view(texts@)),
{
    let ghost views = strings_view(texts@);
    write_count(out, texts.len());
    let ghost counted = out@;
    let mut i: usize = 0;
    while i < texts.len()
        invariant
            i <= texts@.len(),
            views == strings_view(texts@),
            out@ == counted + wire::encode_each(views.take(i as int), wire::text_encoder()),
            forall|k: int| 0 <= k < i ==> wire::text_fits(#[trigger] views[k]),
        decreases texts@.len() - i,
    {
        write_text(out, texts[i].as_str());
        assert(views.take(i + 1).drop_last() =~= views.take(i as int));
        i += 1;
    }
    assert(views.take(i as int) =~= views);
}

/// Appends a note.
fn write_note(out: &mut Vec<u8>, note: &Note)
    ensures
        final(out)@ == old(out)@ + wire::encode_note(note@),
        wire::note_fits(note@),
{
    write_text(out, note.value());
    write_texts(out, note.tags());
    write_text(out, note.timestamp().as_str());
}

/// Appends the list of entries.
fn write_entries(out: &mut Vec<u8>, entries: &Vec<(String, Note)>)
    ensures
        final(out)@ == old(out)@ + wire::encode_list(entries_view(entries@), wire::entry_encoder()),
        entries@.len() <= wire::max_count(),
        forall|k: int|
            0 <= k < entries@.len() ==> wire::entry_fits(#[trigger] entries_view(entries@)[k]),
{
    let ghost views = entries_view(entries@);
    write_count(out, entries.len());
    let ghost counted = out@;
    let mut i: usize = 0;
    while i < entries.len()
        invariant
            i <= entries@.len(),
            views == entries_view(entries@),
            out@ == counted + wire::encode_each(views.take(i as int), wire::entry_encoder()),
            forall|k: int| 0 <= k < i ==> wire::entry_fits(#[trigger] views[k]),
        decreases entries@.len() - i,
    {
        write_text(out, entries[i].0.as_str());
        write_note(out, &entries[i].1);
        assert(views.take(i + 1).drop_last() =~= views.take(i as int));
        i += 1;
    }
    assert(views.take(i as int) =~= views);
}

/// The bytes that stand for `memory`. Reading them back gives the same
/// memory.
pub fn encode_memory(memory: &Memory) -> (bytes: Vec<u8>)
    ensures
        bytes@ == wire::encode_memory(memory@),
        wire::memory_fits(memory@),
        wire::decode_memory(bytes@) == Some(memory@),
{
    memory.proves_wf();
    let mut bytes: Vec<u8> = Vec::new();
    write_entries(&mut bytes, memory.entries());
    write_texts(&mut bytes, memory.history());
    proof {
        wire::lemma_decode_encode(memory@, Seq::empty());
    }
    bytes
}

/// Reads a count at `at`.
fn read_count(bytes: &[u8], at: usize) -> (read: Option<(u64, usize)>)
    requires
        at <= bytes@.len(),
    ensures
        match read {
            Some((n, next)) => {
                &&& at <= next <= bytes@.len()
                &&& wire::parse_count(bytes@.skip(at as int)) == Some(
                    (n as nat, bytes@.skip(next as int)),
                )
            },
            None => wire::parse_count(bytes@.skip(at as int)) is None,
        },
{
    if bytes.len() - at < 8 {
        return None;
    }
    let n = u64_from_le_bytes(slice_subrange(bytes, at, at + 8));
    assert(bytes@.skip(at as int).take(8) =~= bytes@.subrange(at as int, at + 8));
    Some((n, at + 8))
}

/// Reads a text at `at`.
fn read_text(bytes: &[u8], at: usize) -> (read: Option<(String, usize)>)
    requires
        at <= bytes@.len(),
    ensures
        match read {
            Some((text, next)) => {
                &&& at <= next <= bytes@.len()
                &&& wire::parse_text(bytes@.skip(at as int)) == Some(
                    (text@, bytes@.skip(next as int)),
                )
            },
            None => wire::parse_text(bytes@.skip(at as int)) is None,
        },
{
    let (n, body) = match read_count(bytes, at) {
        Some(counted) => counted,
        None => { return None; },
    };
    if n > (bytes.len() - body) as u64 {
        return None;
    }
    let end: usize = body + n as usize;
    assert(bytes@.skip(body as int).take(n as int) =~= bytes@.subrange(body as int, end as int));
    match text_from_utf8(slice_subrange(bytes, body, end)) {
        Some(text) => Some((text, end)),
        None => None,
    }
}

/// The list read so far, followed by what is still to be read: what the
/// whole list is read as.
spec fn continued<T>(sofar: Seq<T>, coming: Option<(Seq<T>, Seq<u8>)>) -> Option<(Seq<T>, Seq<u8>)> {
    match coming {
        None => None,
        Some((others, rest)) => Some((sofar + others, rest)),
    }
}

/// Reads a list of texts at `at`.
fn read_texts(bytes: &[u8], at: usize) -> (read: Option<(Vec<String>, usize)>)
    requires
        at <= bytes@.len(),
    ensures
        match read {
            Some((texts, next)) => {
                &&& at <= next <= bytes@.len()
                &&& wire::parse_list(bytes@.skip(at as int), wire::text_parser()) == Some(
                    (strings_view(texts@), bytes@.skip(next as int)),
                )
            },
            None => wire::parse_list(bytes@.skip(at as int), wire::text_parser()) is None,
        },
{
    let (count, start) = match read_count(bytes, at) {
        Some(counted) => counted,
        None => { return None; },
    };
    let ghost whole = wire::parse_each(bytes@.skip(start as int), count as nat, wire::text_parser());
    let mut texts: Vec<String> = Vec::new();
    let mut cursor: usize = start;
    let mut done: u64 = 0;
    while done < count
        invariant
            done <= count,
            start <= cursor <= bytes@.len(),
            wire::parse_list(bytes@.skip(at as int), wire::text_parser()) == whole,
            whole == continued(
                strings_view(texts@),
                wire::parse_each(
                    bytes@.skip(cursor as int),
                    (count - done) as nat,
                    wire::text_parser(),
                ),
            ),
        decreases count - done,
    {
        match read_text(bytes, cursor) {
            None => {
                return None;
            },
            Some((text, next)) => {
                texts.push(text);
                cursor = next;
                done += 1;
            },
        }
    }
    Some((texts, cursor))
}

/// Reads a note at `at`; its timestamp has to be a written time.
fn read_note(bytes: &[u8], at: usize) -> (read: Option<(Note, usize)>)
    requires
        at <= bytes@.len(),
    ensures
        match read {
            Some((note, next)) => {
                &&& at <= next <= bytes@.len()
                &&& wire::parse_note(bytes@.skip(at as int)) == Some(
                    (note@, bytes@.skip(next as int)),
                )
            },
            None => wire::parse_note(bytes@.skip(at as int)) is None,
        },
{
    let (value, after_value) = match read_text(bytes, at) {
        Some(read) => read,
        None => { return None; },
    };
    let (tags, after_tags) = match read_texts(bytes, after_value) {
        Some(read) => read,
        None => { return None; },
    };
    let (written, next) = match read_text(bytes, after_tags) {
        Some(read) => read,
        None => { return None; },
    };
    let timestamp = match Timestamp::parse(written.as_str()) {
        Some(read) => read,
        None => { return None; },
    };
    Some((Note::from_parts(value, tags, timestamp), next))
}

/// Reads the list of entries at `at` and gathers them: where a key comes
/// again, the later note takes the place of the earlier one.
fn read_entries(bytes: &[u8], at: usize) -> (read: Option<(Vec<(String, Note)>, usize)>)
    requires
        at <= bytes@.len(),
    ensures
        match read {
            Some((entries, next)) => {
                &&& at <= next <= bytes@.len()
                &&& as_memory(entries@).wf()
                &&& exists|raw: Seq<(Seq<char>, NoteView)>|
                    {
                        &&& #[trigger] wire::parse_list(
                            bytes@.skip(at as int),
                            wire::entry_parser(),
                        ) == Some((raw, bytes@.skip(next as int)))
                        &&& entries_view(entries@) == MemoryView::gathered(raw).entries
                    }
            },
            None => wire::parse_list(bytes@.skip(at as int), wire::entry_parser()) is None,
        },
{
    let (count, start) = match read_count(bytes, at) {
        Some(counted) => counted,
        None => { return None; },
    };
    let ghost whole = wire::parse_each(bytes@.skip(start as int), count as nat, wire::entry_parser());
    let ghost mut raw: Seq<(Seq<char>, NoteView)> = Seq::empty();
    let mut entries: Vec<(String, Note)> = Vec::new();
    let mut cursor: usize = start;
    let mut done: u64 = 0;
    while done < count
        invariant
            done <= count,
            start <= cursor <= bytes@.len(),
            wire::parse_list(bytes@.skip(at as int), wire::entry_parser()) == whole,
            as_memory(entries@).wf(),
            entries_view(entries@) == MemoryView::gathered(raw).entries,
            whole == continued(
                raw,
                wire::parse_each(
                    bytes@.skip(cursor as int),
                    (count - done) as nat,
                    wire::entry_parser(),
                ),
            ),
        decreases count - done,
    {
        let (key, after_key) = match read_text(bytes, cursor) {
            Some(read) => read,
            None => { return None; },
        };
        let (note, next) = match read_note(bytes, after_key) {
            Some(read) => read,
            None => { return None; },
        };
        proof {
            assert(raw.push((key@, note@)).drop_last() =~= raw);
            raw = raw.push((key@, note@));
        }
        put_entry(&mut entries, key, note);
        cursor = next;
        done += 1;
    }
    Some((entries, cursor))
}

/// The memory that `bytes` stand for. There is one exactly when the bytes
/// begin with a list of entries and a list of history texts in the layout of
/// [`crate::wire`], with every timestamp a written time; what follows them
/// is ignored. The entries may come in any order.
pub fn decode_memory(bytes: &[u8]) -> (memory: Option<Memory>)
    ensures
        match memory {
            Some(m) => wire::decode_memory(bytes@) == Some(m@),
            None => wire::decode_memory(bytes@) is None,
        },
{
    assert(bytes@.skip(0) =~= bytes@);
    let (entries, after_entries) = match read_entries(bytes, 0) {
        Some(read) => read,
        None => { return None; },
    };
    let (history, _end) = match read_texts(bytes, after_entries) {
        Some(read) => read,
        None => { return None; },
    };
    Some(Memory::assemble(entries, history))
}

} // verus!
