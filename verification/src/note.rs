//! A note: a value, its tags, and the time it was written.

use vstd::prelude::*;
use vstd::string::*;
use crate::text::{is_substring, strings_view, contains_text};
use crate::timestamp::{is_canonical_time, Timestamp};

verus! {

/// One stored note. A note is never changed after it is made: saving again
/// under the same key puts a new note in its place.
#[derive(Debug)]
pub struct Note {
    value: String,
    tags: Vec<String>,
    timestamp: Timestamp,
}

/// What a note holds.
pub struct NoteView {
    pub value: Seq<char>,
    pub tags: Seq<Seq<char>>,
    pub timestamp: Seq<char>,
}

impl View for Note {
    type V = NoteView;

    closed spec fn view(&self) -> NoteView {
        NoteView {
            value: self.value@,
            tags: strings_view(self.tags@),
            timestamp: self.timestamp@,
        }
    }
}

impl NoteView {
    /// The note's timestamp is a written time in canonical form.
    pub open spec fn wf(self) -> bool {
        is_canonical_time(self.timestamp)
    }

    /// The note carries exactly this tag.
    pub open spec fn has_tag(self, tag: Seq<char>) -> bool {
        exists|t: int| 0 <= t < self.tags.len() && #[trigger] self.tags[t] == tag
    }

    /// Some tag of the note has `keyword` as a part.
    pub open spec fn some_tag_contains(self, keyword: Seq<char>) -> bool {
        exists|t: int| 0 <= t < self.tags.len() && is_substring(keyword, #[trigger] self.tags[t])
    }

    /// `keyword` is a part of the key under which the note is stored, of its
    /// value, or of one of its tags.
    pub open spec fn matches(self, key: Seq<char>, keyword: Seq<char>) -> bool {
        ||| is_substring(keyword, key)
        ||| is_substring(keyword, self.value)
        ||| self.some_tag_contains(keyword)
    }
}

/// Copies a list of strings.
pub fn copy_strings(strings: &[String]) -> (copy: Vec<String>)
    ensures
        strings_view(copy@) == strings_view(strings@),
{
    let mut copy: Vec<String> = Vec::new();
    let mut i: usize = 0;
    while i < strings.len()
        invariant
            i <= strings@.len(),
            copy@.len() == i,
            forall|k: int| 0 <= k < i ==> copy@[k]@ == strings@[k]@,
        decreases strings@.len() - i,
    {
        copy.push(strings[i].clone());
        i += 1;
    }
    copy
}

impl Note {
    /// Every note is well formed: its timestamp is a written time in
    /// canonical form.
    pub fn proves_wf(&self)
        ensures
            self@.wf(),
    {
        self.timestamp.proves_canonical();
    }

    /// A note with the given value and tags, written at `timestamp`. Any
    /// text is accepted, the empty one too; tags may repeat.
    pub fn new(value: &str, tags: &[String], timestamp: Timestamp) -> (note: Note)
        ensures
            note@.value == value@,
            note@.tags == strings_view(tags@),
            note@.timestamp == timestamp@,
    {
        Note { value: value.to_owned(), tags: copy_strings(tags), timestamp }
    }

    /// A note made of the given parts, which it takes over.
    pub fn from_parts(value: String, tags: Vec<String>, timestamp: Timestamp) -> (note: Note)
        ensures
            note@.value == value@,
            note@.tags == strings_view(tags@),
            note@.timestamp == timestamp@,
    {
        Note { value, tags, timestamp }
    }

    /// The note's value.
    pub fn value(&self) -> (value: &str)
        ensures
            value@ == self@.value,
    {
        self.value.as_str()
    }

    /// The note's tags, in the order in which they were given.
    pub fn tags(&self) -> (tags: &Vec<String>)
        ensures
            strings_view(tags@) == self@.tags,
    {
        &self.tags
    }

    /// When the note was written.
    pub fn timestamp(&self) -> (timestamp: &Timestamp)
        ensures
            timestamp@ == self@.timestamp,
    {
        &self.timestamp
    }

    /// A copy that holds the same as this note.
    pub fn duplicate(&self) -> (copy: Note)
        ensures
            copy@ == self@,
    {
        Note {
            value: self.value.clone(),
            tags: copy_strings(self.tags.as_slice()),
            timestamp: self.timestamp.duplicate(),
        }
    }

    /// Does the note carry exactly this tag?
    pub fn has_tag(&self, tag: &str) -> (found: bool)
        ensures
            found == self@.has_tag(tag@),
    {
        let wanted = tag.to_owned();
        let mut i: usize = 0;
        while i < self.tags.len()
            invariant
                i <= self.tags@.len(),
                wanted@ == tag@,
                forall|k: int| 0 <= k < i ==> strings_view(self.tags@)[k] != tag@,
            decreases self.tags@.len() - i,
        {
            if self.tags[i] == wanted {
                assert(self@.tags[i as int] == tag@);
                return true;
            }
            i += 1;
        }
        false
    }

    /// Is `keyword` a part of one of the note's tags?
    pub fn some_tag_contains(&self, keyword: &str) -> (found: bool)
        ensures
            found == self@.some_tag_contains(keyword@),
    {
        let mut i: usize = 0;
        while i < self.tags.len()
            invariant
                i <= self.tags@.len(),
                forall|k: int| 0 <= k < i ==> !is_substring(keyword@, strings_view(self.tags@)[k]),
            decreases self.tags@.len() - i,
        {
            if contains_text(self.tags[i].as_str(), keyword) {
                assert(is_substring(keyword@, self@.tags[i as int]));
                return true;
            }
            i += 1;
        }
        false
    }

    /// Is `keyword` a part of `key`, of the note's value, or of one of its
    /// tags?
    pub fn matches(&self, key: &str, keyword: &str) -> (found: bool)
        ensures
            found == self@.matches(key@, keyword@),
    {
        contains_text(key, keyword) || contains_text(self.value.as_str(), keyword)
            || self.some_tag_contains(keyword)
    }
}

} // verus!
