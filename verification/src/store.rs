//! The operations of the store. Each one that changes the memory hands back
//! the envelope of the whole changed memory, which the caller has to write
//! over the stored one before it reports success; an operation that fails
//! leaves the memory as it was.

use vstd::prelude::*;
use vstd::string::*;
use crate::cipher::PLAINTEXT_LIMIT;
use crate::envelope::{decrypt_memory, decrypted, encrypt_memory, outcome_view};
use crate::error::StoreError;
use crate::key::Key;
use crate::memory::{entries_view, Memory, MemoryView, UndoOutcome};
use crate::note::{Note, NoteView};
use crate::text::strings_view;
use crate::timestamp::{is_canonical_time, Timestamp};
use crate::wire;

verus! {

/// What a memory becomes when a note with this value and these tags, written
/// at `timestamp`, is saved under `key`.
pub open spec fn saved(
    before: MemoryView,
    key: Seq<char>,
    value: Seq<char>,
    tags: Seq<Seq<char>>,
    timestamp: Seq<char>,
) -> MemoryView {
    before.save(key, NoteView { value, tags, timestamp })
}

/// The envelope is one of `memory` under `key`: as long as the encoding of
/// the memory plus the 28 bytes of nonce and tag, and decrypting to it.
pub open spec fn holds(envelope: Seq<u8>, memory: MemoryView, key: Seq<u8>) -> bool {
    &&& envelope.len() == wire::encode_memory(memory).len() + 28
    &&& decrypted(envelope, key) == Ok::<MemoryView, StoreError>(memory)
}

/// The memory can be sealed: its encoding is under the cipher's limit.
pub open spec fn sealable(memory: MemoryView) -> bool {
    wire::encode_memory(memory).len() < PLAINTEXT_LIMIT
}

/// Saves `note` under `item_key` and encrypts the memory under `key`.
///
/// On success the memory holds the note, its history names the save, and the
/// envelope returned holds the whole new memory. If the new memory cannot be
/// sealed, nothing is changed.
pub fn save_note(memory: &mut Memory, key: &Key, item_key: &str, note: Note) -> (envelope: Result<
    Vec<u8>,
    StoreError,
>)
    ensures
        envelope is Ok <==> sealable(old(memory)@.save(item_key@, note@)),
        match envelope {
            Ok(bytes) => {
                &&& final(memory)@ == old(memory)@.save(item_key@, note@)
                &&& holds(bytes@, final(memory)@, key@)
            },
            Err(reason) => {
                &&& reason == StoreError::PayloadTooLarge
                &&& final(memory)@ == old(memory)@
            },
        },
        final(memory)@.wf(),
{
    memory.proves_wf();
    let mut candidate = memory.duplicate();
    candidate.record(item_key, note);
    match encrypt_memory(&candidate, key) {
        Ok(bytes) => {
            *memory = candidate;
            Ok(bytes)
        },
        Err(reason) => Err(reason),
    }
}

/// Saves a note with the given value and tags under `item_key`, stamped with
/// the current time, and encrypts the memory under `key`. Any text is
/// accepted: an empty key, an empty value and no tags are all in order.
///
/// On success the memory holds the new note in the place of any earlier one
/// under that key, its history has the entry of this save at its end, and
/// the envelope returned holds the whole new memory. The save fails only
/// where the memory with the new note, stamped with the time that the clock
/// gave, is too long for the cipher to seal; nothing is changed then.
pub fn save_memory(
    memory: &mut Memory,
    key: &Key,
    item_key: &str,
    item_value: &str,
    tags: &[String],
) -> (envelope: Result<Vec<u8>, StoreError>)
    ensures
        match envelope {
            Ok(bytes) => exists|timestamp: Seq<char>|
                {
                    &&& is_canonical_time(timestamp)
                    &&& #[trigger] saved(
                        old(memory)@,
                        item_key@,
                        item_value@,
                        strings_view(tags@),
                        timestamp,
                    ) == final(memory)@
                    &&& holds(bytes@, final(memory)@, key@)
                },
            Err(reason) => {
                &&& reason == StoreError::PayloadTooLarge
                &&& final(memory)@ == old(memory)@
                &&& exists|timestamp: Seq<char>|
                    is_canonical_time(timestamp) && !sealable(
                        #[trigger] saved(
                            old(memory)@,
                            item_key@,
                            item_value@,
                            strings_view(tags@),
                            timestamp,
                        ),
                    )
            },
        },
        final(memory)@.wf(),
{
    let note = Note::new(item_value, tags, Timestamp::now());
    let ghost timestamp = note@.timestamp;
    let envelope = save_note(memory, key, item_key, note);
    proof {
        let stamped = saved(old(memory)@, item_key@, item_value@, strings_view(tags@), timestamp);
        if envelope is Ok {
            assert(stamped == final(memory)@);
        } else {
            assert(!sealable(stamped));
        }
    }
    envelope
}

/// The note under `item_key`, if there is one. Nothing is changed.
pub fn get_memory<'a>(memory: &'a Memory, item_key: &str) -> (found: Option<&'a Note>)
    ensures
        match found {
            Some(note) => memory@.get(item_key@) == Some(note@),
            None => memory@.get(item_key@) is None,
        },
{
    memory.get(item_key)
}

/// The notes that match `keyword`: those whose key, value or one of whose
/// tags has it as a part, compared case-sensitively. Every match comes once,
/// with its key.
pub fn search_notes(memory: &Memory, keyword: &str) -> (found: Vec<(String, Note)>)
    ensures
        entries_view(found@) == memory@.search(keyword@),
{
    memory.search(keyword)
}

/// The notes that carry exactly the tag `tag`. Every match comes once, with
/// its key.
pub fn show_notes_by_tag(memory: &Memory, tag: &str) -> (found: Vec<(String, Note)>)
    ensures
        entries_view(found@) == memory@.with_tag(tag@),
{
    memory.with_tag(tag)
}

/// What an undo did, and the envelope to write if it changed anything.
pub struct Undone {
    /// What was taken back.
    pub outcome: UndoOutcome,
    /// The envelope of the memory after the undo; none when the history was
    /// empty and nothing changed.
    pub envelope: Option<Vec<u8>>,
}

/// Takes back the last operation and encrypts the memory under `key`.
///
/// With an empty history nothing happens and there is nothing to write.
/// Otherwise the last history entry is removed, with the note of the key it
/// names if it is that of a save, and the envelope returned holds the whole
/// new memory. If the new memory cannot be sealed, nothing is changed.
pub fn undo_last(memory: &mut Memory, key: &Key) -> (undone: Result<Undone, StoreError>)
    ensures
        undone is Ok <==> old(memory)@.history.len() == 0 || sealable(old(memory)@.undo()),
        match undone {
            Ok(done) => {
                &&& final(memory)@ == old(memory)@.undo()
                &&& done.outcome.describes(old(memory)@)
                &&& match done.envelope {
                    Some(bytes) => old(memory)@.history.len() > 0 && holds(
                        bytes@,
                        final(memory)@,
                        key@,
                    ),
                    None => old(memory)@.history.len() == 0,
                }
            },
            Err(reason) => {
                &&& reason == StoreError::PayloadTooLarge
                &&& final(memory)@ == old(memory)@
            },
        },
        final(memory)@.wf(),
{
    memory.proves_wf();
    if memory.history().len() == 0 {
        return Ok(Undone { outcome: UndoOutcome::NothingToUndo, envelope: None });
    }
    let mut candidate = memory.duplicate();
    let outcome = candidate.undo();
    match encrypt_memory(&candidate, key) {
        Ok(bytes) => {
            *memory = candidate;
            Ok(Undone { outcome, envelope: Some(bytes) })
        },
        Err(reason) => Err(reason),
    }
}

/// Encrypts the memory under `key` for writing to a place of the caller's
/// choosing. The memory is not changed.
pub fn export_memory(memory: &Memory, key: &Key) -> (envelope: Result<Vec<u8>, StoreError>)
    ensures
        envelope is Ok <==> sealable(memory@),
        match envelope {
            Ok(bytes) => holds(bytes@, memory@, key@),
            Err(reason) => reason == StoreError::PayloadTooLarge,
        },
{
    encrypt_memory(memory, key)
}

/// What a memory is after an import: what the envelope holds where it
/// decrypts under `key`, else what it was.
pub open spec fn after_import(current: MemoryView, envelope: Seq<u8>, key: Seq<u8>) -> MemoryView {
    match decrypted(envelope, key) {
        Ok(held) => held,
        Err(_) => current,
    }
}

/// An import replaces the memory wholesale: after a successful import the
/// memory is what the envelope holds, whatever it was before. A key saved
/// just before is there afterwards exactly if the envelope holds it.
pub proof fn lemma_import_replaces(
    current: MemoryView,
    other: MemoryView,
    envelope: Seq<u8>,
    key: Seq<u8>,
    saved_key: Seq<char>,
    saved_note: NoteView,
)
    requires
        decrypted(envelope, key) is Ok,
    ensures
        after_import(current, envelope, key) == after_import(other, envelope, key),
        after_import(current.save(saved_key, saved_note), envelope, key).contains_key(saved_key)
            == decrypted(envelope, key)->Ok_0.contains_key(saved_key),
{
}

/// Decrypts `envelope` under `key` and puts what it holds in the place of
/// the whole memory: nothing of the old memory is kept and nothing is
/// merged. If the envelope does not decrypt, the memory stays as it was.
pub fn import_memory(memory: &mut Memory, envelope: &[u8], key: &Key) -> (imported: Result<
    (),
    StoreError,
>)
    ensures
        final(memory)@ == after_import(old(memory)@, envelope@, key@),
        match decrypted(envelope@, key@) {
            Ok(held) => imported is Ok,
            Err(reason) => imported == Err::<(), StoreError>(reason),
        },
        final(memory)@.wf(),
{
    memory.proves_wf();
    match decrypt_memory(envelope, key) {
        Ok(held) => {
            *memory = held;
            Ok(())
        },
        Err(reason) => Err(reason),
    }
}

/// The memory of a store: an empty one where nothing has been stored yet,
/// else what the stored envelope holds.
pub fn load_memory(stored: Option<&[u8]>, key: &Key) -> (memory: Result<Memory, StoreError>)
    ensures
        outcome_view(memory) == match stored {
            Some(envelope) => decrypted(envelope@, key@),
            None => Ok(MemoryView::empty()),
        },
        memory matches Ok(m) ==> m@.wf(),
{
    match stored {
        Some(envelope) => decrypt_memory(envelope, key),
        None => {
            let memory = Memory::new();
            memory.proves_wf();
            Ok(memory)
        },
    }
}

/// The text in front of a profile's name in the name of its store.
pub const PROFILE_STORE_PREFIX: &'static str = "memory_";

/// The text behind a profile's name in the name of its store.
pub const PROFILE_STORE_SUFFIX: &'static str = ".bin";

/// The name of the store of the profile `name`.
pub fn profile_store_name(name: &str) -> (store: String)
    ensures
        store@ == PROFILE_STORE_PREFIX@ + name@ + PROFILE_STORE_SUFFIX@,
{
    String::from_str(PROFILE_STORE_PREFIX).concat(name).concat(PROFILE_STORE_SUFFIX)
}

/// What has to be written to make a profile the active one.
pub struct ProfileSwitch {
    /// The envelope to write as the profile's own store first; none where
    /// the profile had a store already.
    pub create: Option<Vec<u8>>,
    /// The envelope to write over the active store.
    pub activate: Vec<u8>,
}

impl ProfileSwitch {
    /// The switch to a profile that has a store: the store is made active as
    /// it is, unread.
    pub fn to_existing(envelope: Vec<u8>) -> (plan: ProfileSwitch)
        ensures
            plan.create is None,
            plan.activate@ == envelope@,
    {
        ProfileSwitch { create: None, activate: envelope }
    }

    /// The switch to a profile that has no store yet: it starts with an
    /// empty memory encrypted under `key`, written as its own store first
    /// and then made active.
    pub fn to_new(key: &Key) -> (plan: Result<ProfileSwitch, StoreError>)
        ensures
            plan is Ok,
            plan matches Ok(made) ==> {
                &&& made.create matches Some(fresh)
                &&& fresh@ == made.activate@
                &&& holds(fresh@, MemoryView::empty(), key@)
            },
    {
        let empty = Memory::new();
        proof {
            wire::lemma_empty_is_short();
        }
        match encrypt_memory(&empty, key) {
            Ok(fresh) => {
                let activate = fresh.clone();
                Ok(ProfileSwitch { create: Some(fresh), activate })
            },
            Err(reason) => Err(reason),
        }
    }
}

/// Decides what a switch to a profile has to write, given the envelope of
/// the profile's own store if it has one. A profile without a store starts
/// with an empty memory encrypted under `key`; a profile with a store has
/// that store made active as it is, unread.
pub fn switch_user(profile_store: Option<Vec<u8>>, key: &Key) -> (switch: Result<
    ProfileSwitch,
    StoreError,
>)
    ensures
        switch is Ok,
        switch matches Ok(plan) ==> match profile_store {
            Some(envelope) => plan.create is None && plan.activate@ == envelope@,
            None => {
                &&& plan.create matches Some(fresh)
                &&& fresh@ == plan.activate@
                &&& holds(fresh@, MemoryView::empty(), key@)
            },
        },
{
    match profile_store {
        Some(envelope) => Ok(ProfileSwitch::to_existing(envelope)),
        None => ProfileSwitch::to_new(key),
    }
}

} // verus!
