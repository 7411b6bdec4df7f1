//! First setup and recovery: the key, the first envelope and the recovery
//! token that outlives the key.

use vstd::prelude::*;
use vstd::string::*;
use crate::envelope::{decrypt_memory, decrypted, encrypt_memory};
use crate::error::StoreError;
use crate::key::{generate_key, Key};
use crate::memory::{Memory, MemoryView};
use crate::store::{holds, sealable};
use crate::timestamp::{is_canonical_time, timestamp_canonical, Timestamp};
use crate::wire;

verus! {

/// The name under which a token's identifier is written.
pub const ID_FIELD: &'static str = "id";

/// The name under which a token's time of creation is written.
pub const CREATED_FIELD: &'static str = "createdAt";

/// The canonical written form of the UUID that `text` denotes: lower-case
/// hexadecimal digits in groups of 8, 4, 4, 4 and 12, with hyphens between.
/// There is none where the uuid crate's parser refuses `text`.
pub uninterp spec fn uuid_canonical(text: Seq<char>) -> Option<Seq<char>>;

/// The text of the member `name` of the JSON object that `document` is.
/// There is none where `document` is not JSON, is not an object, has no such
/// member, or has one that is not a string.
pub uninterp spec fn json_member_text(document: Seq<char>, name: Seq<char>) -> Option<Seq<char>>;

/// The JSON object with the given members, all strings, written over several
/// indented lines.
pub uninterp spec fn json_object_text(members: Seq<(Seq<char>, Seq<char>)>) -> Option<Seq<char>>;

/// The views of names and values.
pub open spec fn members_view(members: Seq<(String, String)>) -> Seq<(Seq<char>, Seq<char>)> {
    Seq::new(members.len(), |i: int| (members[i].0@, members[i].1@))
}

/// The text is a UUID in canonical form: the parser reads it, and what it
/// reads is written down as this very text.
pub open spec fn is_canonical_uuid(text: Seq<char>) -> bool {
    uuid_canonical(text) == Some(text)
}

/// `Uuid::new_v4` of the crate uuid, written down with `to_string`.
///
/// Taken on trust: whichever UUID was drawn, the text is a UUID in canonical
/// form. `to_string` writes the 32 lower-case hexadecimal digits with the four
/// hyphens, `Uuid::parse_str` reads that form as the same UUID, and
/// `to_string` is the writer by which the canonical form is defined. Nothing
/// is promised of which UUID it is: it is random. `new_v4` stops the program
/// if the system has no randomness to give.
#[verifier::external_body]
fn fresh_uuid() -> (text: String)
    ensures
        is_canonical_uuid(text@),
{
    uuid::Uuid::new_v4().to_string()
}

/// `Uuid::parse_str` of the crate uuid, and on success the UUID written down
/// with `to_string`.
///
/// Taken on trust: the result is a function of the text alone, and what is
/// written is itself a UUID in canonical form: as with a fresh UUID, the
/// parser reads what `to_string` wrote as the same UUID.
#[verifier::external_body]
fn canonical_uuid(text: &str) -> (canonical: Option<String>)
    ensures
        match canonical {
            Some(written) => uuid_canonical(text@) == Some(written@) && is_canonical_uuid(
                written@,
            ),
            None => uuid_canonical(text@) is None,
        },
{
    uuid::Uuid::parse_str(text).ok().map(|id| id.to_string())
}

/// `serde_json::from_str` to a `serde_json::Value`, then `Value::get` with
/// the name and `Value::as_str` on what it finds. The result is a function
/// of document and name alone.
#[verifier::external_body]
fn json_member(document: &str, name: &str) -> (text: Option<String>)
    ensures
        match text {
            Some(found) => json_member_text(document@, name@) == Some(found@),
            None => json_member_text(document@, name@) is None,
        },
{
    let value = serde_json::from_str::<serde_json::Value>(document).ok()?;
    value.get(name)?.as_str().map(|found| found.to_owned())
}

/// `serde_json::to_string_pretty` on a `serde_json::Value::Object` that
/// holds the members as strings.
///
/// Taken on trust: the result is a function of the members alone, and there
/// always is one. The writer fails only where what it writes into fails or a
/// value refuses to be written; it writes into a vector of bytes, which takes
/// whatever it is given, and an object whose names and values are all strings
/// refuses nothing.
#[verifier::external_body]
fn json_object(members: &Vec<(String, String)>) -> (text: Option<String>)
    ensures
        text is Some,
        match text {
            Some(written) => json_object_text(members_view(members@)) == Some(written@),
            None => json_object_text(members_view(members@)) is None,
        },
{
    let mut object = serde_json::Map::new();
    for (name, value) in members.iter() {
        object.insert(name.clone(), serde_json::Value::String(value.clone()));
    }
    serde_json::to_string_pretty(&serde_json::Value::Object(object)).ok()
}

/// The anchor of a recovery: made once at first setup, never changed, and
/// kept apart from key and envelope.
#[derive(Debug)]
pub struct RecoveryToken {
    id: String,
    created_at: Timestamp,
}

/// What a recovery token holds.
pub struct RecoveryTokenView {
    /// The identifier, a UUID in its written form.
    pub id: Seq<char>,
    /// The time of creation in its written form.
    pub created_at: Seq<char>,
}

impl View for RecoveryToken {
    type V = RecoveryTokenView;

    closed spec fn view(&self) -> RecoveryTokenView {
        RecoveryTokenView { id: self.id@, created_at: self.created_at@ }
    }
}

impl RecoveryTokenView {
    /// The members of the token as they are written.
    pub open spec fn members(self) -> Seq<(Seq<char>, Seq<char>)> {
        seq![(ID_FIELD@, self.id), (CREATED_FIELD@, self.created_at)]
    }

    /// The identifier is a UUID and the time of creation a time, each written
    /// in its canonical form.
    pub open spec fn is_canonical(self) -> bool {
        is_canonical_uuid(self.id) && is_canonical_time(self.created_at)
    }

    /// The token as structured text.
    pub open spec fn written(self) -> Option<Seq<char>> {
        json_object_text(self.members())
    }
}

/// The token that `document` holds: the members `id` and `createdAt` of a
/// JSON object, the first a UUID and the second a time, each in its
/// canonical form. There is none where a member is missing or is not what
/// it has to be.
pub open spec fn token_in(document: Seq<char>) -> Option<RecoveryTokenView> {
    token_of(
        match json_member_text(document, ID_FIELD@) {
            Some(id) => uuid_canonical(id),
            None => None,
        },
        match json_member_text(document, CREATED_FIELD@) {
            Some(created_at) => timestamp_canonical(created_at),
            None => None,
        },
    )
}

/// The token with this identifier and this time of creation, where both are
/// there.
pub open spec fn token_of(id: Option<Seq<char>>, created_at: Option<Seq<char>>) -> Option<
    RecoveryTokenView,
> {
    match (id, created_at) {
        (Some(id), Some(created_at)) => Some(RecoveryTokenView { id, created_at }),
        _ => None,
    }
}

impl RecoveryToken {
    /// A new token: a freshly drawn UUID as identifier and the present moment
    /// as time of creation, each written in its canonical form. Which UUID
    /// and which moment depends on chance and on the clock.
    pub fn generate() -> (token: RecoveryToken)
        ensures
            token@.is_canonical(),
    {
        RecoveryToken { id: fresh_uuid(), created_at: Timestamp::now() }
    }

    /// The token with this identifier and this time of creation. A part that
    /// is missing makes the token invalid.
    pub fn from_parts(id: Option<String>, created_at: Option<Timestamp>) -> (token: Result<
        RecoveryToken,
        StoreError,
    >)
        ensures
            match token {
                Ok(made) => id matches Some(i) && created_at matches Some(c) && made@
                    == (RecoveryTokenView { id: i@, created_at: c@ }),
                Err(reason) => reason == StoreError::InvalidRecoveryToken && (id is None
                    || created_at is None),
            },
    {
        match (id, created_at) {
            (Some(id), Some(created_at)) => Ok(RecoveryToken { id, created_at }),
            _ => Err(StoreError::InvalidRecoveryToken),
        }
    }

    /// Reads a token from structured text. The text has to be a JSON object
    /// with a member `id` that is a UUID and a member `createdAt` that is a
    /// time; other members are ignored. Both are taken in canonical form.
    pub fn parse(document: &str) -> (token: Result<RecoveryToken, StoreError>)
        ensures
            match token {
                Ok(read) => token_in(document@) == Some(read@) && read@.is_canonical(),
                Err(reason) => reason == StoreError::InvalidRecoveryToken && token_in(document@)
                    is None,
            },
    {
        let id = match json_member(document, ID_FIELD) {
            Some(text) => canonical_uuid(text.as_str()),
            None => None,
        };
        let created_at = match json_member(document, CREATED_FIELD) {
            Some(text) => Timestamp::parse(text.as_str()),
            None => None,
        };
        RecoveryToken::from_parts(id, created_at)
    }

    /// The token as structured text: a JSON object with the members `id` and
    /// `createdAt`. Every token can be written.
    pub fn to_json(&self) -> (text: Option<String>)
        ensures
            text matches Some(written) && self@.written() == Some(written@),
    {
        let mut members: Vec<(String, String)> = Vec::new();
        members.push((String::from_str(ID_FIELD), self.id.clone()));
        members.push((String::from_str(CREATED_FIELD), self.created_at.as_str().to_owned()));
        assert(members_view(members@) =~= self@.members());
        json_object(&members)
    }

    /// The identifier: a UUID in its written form.
    pub fn id(&self) -> (id: &str)
        ensures
            id@ == self@.id,
    {
        self.id.as_str()
    }

    /// When the token was made.
    pub fn created_at(&self) -> (created_at: &Timestamp)
        ensures
            created_at@ == self@.created_at,
    {
        &self.created_at
    }
}

/// What first setup produces. The caller writes key, envelope and token text
/// each to its own place.
pub struct Onboarding {
    /// The new master key.
    pub key: Key,
    /// The memory of the new store: empty.
    pub memory: Memory,
    /// The envelope of the empty memory under the new key.
    pub envelope: Vec<u8>,
    /// The recovery token.
    pub token: RecoveryToken,
    /// The recovery token as structured text.
    pub token_text: String,
}

/// Puts a first setup together from a key and a token that were made for it:
/// encrypts an empty memory under the key and takes the token with its text.
/// It fails only where the token could not be written down.
pub fn assemble_onboarding(key: Key, token: RecoveryToken, token_text: Option<String>) -> (setup:
    Result<Onboarding, StoreError>)
    ensures
        setup is Ok <==> token_text is Some,
        match setup {
            Ok(made) => {
                &&& made.key@ == key@
                &&& made.memory@ == MemoryView::empty()
                &&& holds(made.envelope@, MemoryView::empty(), key@)
                &&& made.token@ == token@
                &&& token_text matches Some(text) && made.token_text@ == text@
            },
            Err(reason) => reason == StoreError::InvalidRecoveryToken,
        },
{
    let token_text = match token_text {
        Some(text) => text,
        None => { return Err(StoreError::InvalidRecoveryToken); },
    };
    let memory = Memory::new();
    proof {
        wire::lemma_empty_is_short();
    }
    match encrypt_memory(&memory, &key) {
        Ok(envelope) => Ok(Onboarding { key, memory, envelope, token, token_text }),
        Err(reason) => Err(reason),
    }
}

/// First setup: a fresh key, an empty memory encrypted under it, and a
/// recovery token. Nothing else ever makes a recovery token.
///
/// First setup always succeeds. The token's identifier is a UUID and its
/// time of creation a time, each in canonical form, and the token text is
/// the token written down.
pub fn onboard() -> (setup: Result<Onboarding, StoreError>)
    ensures
        setup matches Ok(made) && {
            &&& made.memory@ == MemoryView::empty()
            &&& holds(made.envelope@, MemoryView::empty(), made.key@)
            &&& made.token@.is_canonical()
            &&& made.token@.written() == Some(made.token_text@)
        },
{
    let key = generate_key();
    let token = RecoveryToken::generate();
    let token_text = token.to_json();
    assemble_onboarding(key, token, token_text)
}

/// A backup of an earlier store: its envelope, and the key under which it
/// was sealed. Without that key a backup cannot be read.
pub struct Backup {
    /// The envelope of the backup.
    pub envelope: Vec<u8>,
    /// The key under which the backup was sealed.
    pub key: Key,
}

/// What a recovery produces. The caller writes key and envelope each to its
/// own place.
pub struct Recovery {
    /// The token that the recovery went by.
    pub token: RecoveryToken,
    /// The new master key.
    pub key: Key,
    /// The memory of the recovered store.
    pub memory: Memory,
    /// The envelope of that memory under the new key.
    pub envelope: Vec<u8>,
}

/// What the memory of the recovered store is to be: what the backup holds,
/// or nothing where there is no backup.
pub open spec fn to_restore(backup: Option<Backup>) -> Result<MemoryView, StoreError> {
    match backup {
        Some(kept) => decrypted(kept.envelope@, kept.key@),
        None => Ok(MemoryView::empty()),
    }
}

/// Rebuilds a store under `new_key`. With a backup, the memory is what the
/// backup holds, decrypted under the backup's own key and encrypted again
/// under the new one; without, the memory is empty. A backup that does not
/// decrypt fails the recovery with the reason why.
pub fn restore(token: RecoveryToken, new_key: Key, backup: Option<Backup>) -> (recovery: Result<
    Recovery,
    StoreError,
>)
    ensures
        match to_restore(backup) {
            Ok(memory) => if sealable(memory) {
                &&& recovery matches Ok(made)
                &&& made.token@ == token@
                &&& made.key@ == new_key@
                &&& made.memory@ == memory
                &&& holds(made.envelope@, memory, new_key@)
            } else {
                recovery matches Err(reason) && reason == StoreError::PayloadTooLarge
            },
            Err(why) => recovery matches Err(reason) && reason == why,
        },
{
    let memory = match backup {
        Some(kept) => match decrypt_memory(kept.envelope.as_slice(), &kept.key) {
            Ok(held) => held,
            Err(reason) => { return Err(reason); },
        },
        None => Memory::new(),
    };
    match encrypt_memory(&memory, &new_key) {
        Ok(envelope) => Ok(Recovery { token, key: new_key, memory, envelope }),
        Err(reason) => Err(reason),
    }
}

/// Recovery after the key was lost. The token text has to hold a valid
/// token, or nothing is done. Then a brand-new key is made: the old one is
/// not recovered. With a backup, the memory is what the backup holds; without
/// one the store starts empty.
pub fn recover_from_file(token_text: &str, backup: Option<Backup>) -> (recovery: Result<
    Recovery,
    StoreError,
>)
    ensures
        match token_in(token_text@) {
            None => recovery matches Err(reason) && reason == StoreError::InvalidRecoveryToken,
            Some(token) => match to_restore(backup) {
                Ok(memory) => if sealable(memory) {
                    &&& recovery matches Ok(made)
                    &&& made.token@ == token
                    &&& made.memory@ == memory
                    &&& holds(made.envelope@, memory, made.key@)
                } else {
                    recovery matches Err(reason) && reason == StoreError::PayloadTooLarge
                },
                Err(why) => recovery matches Err(reason) && reason == why,
            },
        },
{
    let token = match RecoveryToken::parse(token_text) {
        Ok(read) => read,
        Err(reason) => { return Err(reason); },
    };
    restore(token, generate_key(), backup)
}

} // verus!
