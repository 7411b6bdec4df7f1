//! The memory: notes under unique keys, and the history of operations that
//! undo works from.

use vstd::prelude::*;
use vstd::string::*;
use crate::note::{copy_strings, Note, NoteView};
use crate::text::{
    comes_before, lemma_text_before_transitive, lemma_text_order, strings_view, strip_prefix,
    text_before,
};

verus! {

/// The text that opens the history entry of a save.
pub const SAVE_PREFIX: &'static str = "save:";

/// The history entry that a save under `key` leaves.
pub open spec fn save_tag(key: Seq<char>) -> Seq<char> {
    SAVE_PREFIX@ + key
}

/// The history entry is that of a save.
pub open spec fn is_save_tag(entry: Seq<char>) -> bool {
    SAVE_PREFIX@.is_prefix_of(entry)
}

/// The key that the history entry of a save names.
pub open spec fn saved_key(entry: Seq<char>) -> Seq<char> {
    entry.skip(SAVE_PREFIX@.len() as int)
}

/// The entries whose note matches `keyword`: see [`NoteView::matches`].
pub open spec fn matching(keyword: Seq<char>) -> spec_fn((Seq<char>, NoteView)) -> bool {
    |entry: (Seq<char>, NoteView)| entry.1.matches(entry.0, keyword)
}

/// The entries whose note carries exactly the tag `tag`.
pub open spec fn tagged(tag: Seq<char>) -> spec_fn((Seq<char>, NoteView)) -> bool {
    |entry: (Seq<char>, NoteView)| entry.1.has_tag(tag)
}

/// The views of a sequence of entries, in order.
pub open spec fn entries_view(entries: Seq<(String, Note)>) -> Seq<(Seq<char>, NoteView)> {
    Seq::new(entries.len(), |i: int| (entries[i].0@, entries[i].1@))
}

/// The entries stand in the order of their keys, each key before the next:
/// so no key occurs twice, and where an entry stands depends on the keys
/// alone.
pub open spec fn keys_ascend(entries: Seq<(Seq<char>, NoteView)>) -> bool {
    forall|i: int, j: int|
        0 <= i < j < entries.len() ==> text_before(
            (#[trigger] entries[i]).0,
            (#[trigger] entries[j]).0,
        )
}

/// Every note among the entries is well formed.
pub open spec fn notes_wf(entries: Seq<(Seq<char>, NoteView)>) -> bool {
    forall|i: int| 0 <= i < entries.len() ==> (#[trigger] entries[i]).1.wf()
}

/// How many entries at the front have a key that comes before `key`: where
/// an entry with that key stands, or would have to stand, among entries in
/// the order of their keys.
pub open spec fn rank(entries: Seq<(Seq<char>, NoteView)>, key: Seq<char>) -> int
    decreases entries.len(),
{
    if entries.len() > 0 && text_before(entries.first().0, key) {
        1 + rank(entries.drop_first(), key)
    } else {
        0
    }
}

/// One of the entries has the key `key`.
pub open spec fn has_key(entries: Seq<(Seq<char>, NoteView)>, key: Seq<char>) -> bool {
    exists|i: int| 0 <= i < entries.len() && (#[trigger] entries[i]).0 == key
}

/// Where an entry with the key `key` stands, if there is one.
pub open spec fn position_of(entries: Seq<(Seq<char>, NoteView)>, key: Seq<char>) -> int {
    choose|i: int| 0 <= i < entries.len() && (#[trigger] entries[i]).0 == key
}

/// What a memory holds: the entries in the order of their keys, and the
/// history with the latest operation last.
pub struct MemoryView {
    pub entries: Seq<(Seq<char>, NoteView)>,
    pub history: Seq<Seq<char>>,
}

impl MemoryView {
    /// The memory with no note and no history.
    pub open spec fn empty() -> MemoryView {
        MemoryView { entries: Seq::empty(), history: Seq::empty() }
    }

    /// The entries stand in the order of their keys, so that no key occurs
    /// twice, and every note is well formed.
    pub open spec fn wf(self) -> bool {
        keys_ascend(self.entries) && notes_wf(self.entries)
    }

    /// The memory that comes of putting the entries in one after the other,
    /// with an empty history: each goes where its key belongs, and where a
    /// key comes again, the later note takes the place of the earlier one.
    pub open spec fn gathered(raw: Seq<(Seq<char>, NoteView)>) -> MemoryView
        decreases raw.len(),
    {
        if raw.len() == 0 {
            MemoryView::empty()
        } else {
            Self::gathered(raw.drop_last()).put(raw.last().0, raw.last().1)
        }
    }

    /// A note is stored under `key`.
    pub open spec fn contains_key(self, key: Seq<char>) -> bool {
        has_key(self.entries, key)
    }

    /// Where the note under `key` stands, if there is one.
    pub open spec fn position(self, key: Seq<char>) -> int {
        position_of(self.entries, key)
    }

    /// The note under `key`.
    pub open spec fn get(self, key: Seq<char>) -> Option<NoteView> {
        if self.contains_key(key) {
            Some(self.entries[self.position(key)].1)
        } else {
            None
        }
    }

    /// The notes as a mapping from key to note.
    pub open spec fn items(self) -> Map<Seq<char>, NoteView> {
        Map::new(
            |key: Seq<char>| self.contains_key(key),
            |key: Seq<char>| self.entries[self.position(key)].1,
        )
    }

    /// The memory with `note` under `key`: in the place of the note that was
    /// there, or where the key belongs in the order of keys if there was
    /// none. The history is as it was.
    pub open spec fn put(self, key: Seq<char>, note: NoteView) -> MemoryView {
        if self.contains_key(key) {
            MemoryView {
                entries: self.entries.update(self.position(key), (key, note)),
                history: self.history,
            }
        } else {
            MemoryView {
                entries: self.entries.insert(rank(self.entries, key), (key, note)),
                history: self.history,
            }
        }
    }

    /// The memory without the note under `key`. The history is as it was.
    pub open spec fn without(self, key: Seq<char>) -> MemoryView {
        if self.contains_key(key) {
            MemoryView {
                entries: self.entries.remove(self.position(key)),
                history: self.history,
            }
        } else {
            self
        }
    }

    /// The memory after a save: `note` stands under `key`, and the history
    /// has one more entry, which names the key.
    pub open spec fn save(self, key: Seq<char>, note: NoteView) -> MemoryView {
        let stored = self.put(key, note);
        MemoryView { entries: stored.entries, history: stored.history.push(save_tag(key)) }
    }

    /// The memory after an undo. With an empty history nothing changes.
    /// Otherwise the last history entry is taken off, and if it is that of a
    /// save, the note under the key that it names is removed: not put back
    /// to what it was before.
    pub open spec fn undo(self) -> MemoryView {
        if self.history.len() == 0 {
            self
        } else {
            let last = self.history.last();
            let kept = if is_save_tag(last) {
                self.without(saved_key(last))
            } else {
                self
            };
            MemoryView { entries: kept.entries, history: self.history.drop_last() }
        }
    }

    /// The entries whose key, value or one of whose tags has `keyword` as a
    /// part, each once, in the order of the memory.
    pub open spec fn search(self, keyword: Seq<char>) -> Seq<(Seq<char>, NoteView)> {
        self.entries.filter(matching(keyword))
    }

    /// The entries that carry exactly the tag `tag`, each once, in the order
    /// of the memory.
    pub open spec fn with_tag(self, tag: Seq<char>) -> Seq<(Seq<char>, NoteView)> {
        self.entries.filter(tagged(tag))
    }
}

/// What an undo did.
#[derive(Debug)]
pub enum UndoOutcome {
    /// The history was empty: nothing was changed.
    NothingToUndo,
    /// The last entry was that of a save under this key; the entry is gone
    /// from the history, and so is the note under the key, if there was one.
    UndidSave(String),
    /// The last entry, given here, was not that of a save; it is gone from
    /// the history and the notes are as they were.
    Dropped(String),
}

impl UndoOutcome {
    /// The outcome that an undo on `before` reports.
    pub open spec fn describes(&self, before: MemoryView) -> bool {
        match self {
            UndoOutcome::NothingToUndo => before.history.len() == 0,
            UndoOutcome::UndidSave(key) => {
                &&& before.history.len() > 0
                &&& is_save_tag(before.history.last())
                &&& key@ == saved_key(before.history.last())
            },
            UndoOutcome::Dropped(entry) => {
                &&& before.history.len() > 0
                &&& !is_save_tag(before.history.last())
                &&& entry@ == before.history.last()
            },
        }
    }
}

/// Where the note under `key` stands among the entries.
pub(crate) fn find_key(entries: &Vec<(String, Note)>, key: &String) -> (found: Option<usize>)
    requires
        as_memory(entries@).wf(),
    ensures
        match found {
            Some(at) => {
                &&& at < entries@.len()
                &&& has_key(entries_view(entries@), key@)
                &&& at == position_of(entries_view(entries@), key@)
            },
            None => !has_key(entries_view(entries@), key@),
        },
{
    let ghost m = as_memory(entries@);
    let mut i: usize = 0;
    while i < entries.len()
        invariant
            i <= entries@.len(),
            m == as_memory(entries@),
            m.wf(),
            forall|k: int| 0 <= k < i ==> (#[trigger] m.entries[k]).0 != key@,
        decreases entries@.len() - i,
    {
        if entries[i].0 == *key {
            proof {
                lemma_position_unique(m, key@, i as int);
            }
            return Some(i);
        }
        i += 1;
    }
    None
}

/// Where an entry with the key `key` has to stand among the entries.
fn slot_of(entries: &Vec<(String, Note)>, key: &str) -> (at: usize)
    ensures
        at <= entries@.len(),
        at == rank(entries_view(entries@), key@),
{
    let ghost views = entries_view(entries@);
    let mut i: usize = 0;
    assert(views.skip(0) =~= views);
    while i < entries.len() && comes_before(entries[i].0.as_str(), key)
        invariant
            i <= entries@.len(),
            views == entries_view(entries@),
            rank(views, key@) == i + rank(views.skip(i as int), key@),
        decreases entries@.len() - i,
    {
        assert(views.skip(i as int).first() == views[i as int]);
        assert(views.skip(i as int).drop_first() =~= views.skip(i + 1));
        i += 1;
    }
    assert(i < entries@.len() ==> views.skip(i as int).first() == views[i as int]);
    i
}

/// Puts `note` under `key`: in the place of the note that stood there, or
/// where the key belongs in the order of keys if there was none.
pub(crate) fn put_entry(entries: &mut Vec<(String, Note)>, key: String, note: Note)
    requires
        as_memory(old(entries)@).wf(),
    ensures
        as_memory(final(entries)@) == as_memory(old(entries)@).put(key@, note@),
        as_memory(final(entries)@).wf(),
{
    let ghost before = as_memory(entries@);
    note.proves_wf();
    proof {
        lemma_put(before, key@, note@);
    }
    match find_key(entries, &key) {
        Some(at) => {
            entries[at] = (key, note);
            assert(entries_view(entries@) =~= before.entries.update(at as int, (key@, note@)));
        },
        None => {
            let at = slot_of(entries, key.as_str());
            entries.insert(at, (key, note));
            assert(entries_view(entries@) =~= before.entries.insert(at as int, (key@, note@)));
        },
    }
}

/// The entries seen as a memory with an empty history.
pub open spec fn as_memory(entries: Seq<(String, Note)>) -> MemoryView {
    MemoryView { entries: entries_view(entries), history: Seq::empty() }
}

/// The notes of a store and the history of what was done to them.
#[derive(Debug)]
pub struct Memory {
    entries: Vec<(String, Note)>,
    history: Vec<String>,
}

impl Default for Memory {
    /// The memory with no note and no history.
    fn default() -> (memory: Memory)
        ensures
            memory@ == MemoryView::empty(),
    {
        Memory::new()
    }
}

impl View for Memory {
    type V = MemoryView;

    closed spec fn view(&self) -> MemoryView {
        MemoryView { entries: entries_view(self.entries@), history: strings_view(self.history@) }
    }
}

impl Memory {
    #[verifier::type_invariant]
    spec fn keys_are_in_order(&self) -> bool {
        self@.wf()
    }

    /// Every memory is well formed: its entries stand in the order of their
    /// keys, no key occurs twice, and every note is well formed.
    pub fn proves_wf(&self)
        ensures
            self@.wf(),
    {
        proof {
            use_type_invariant(self);
        }
    }

    /// The memory with no note and no history.
    pub fn new() -> (memory: Memory)
        ensures
            memory@ == MemoryView::empty(),
    {
        let memory = Memory { entries: Vec::new(), history: Vec::new() };
        assert(memory@.entries =~= Seq::empty());
        assert(memory@.history =~= Seq::empty());
        memory
    }

    /// How many notes are stored.
    pub fn len(&self) -> (count: usize)
        ensures
            count == self@.entries.len(),
    {
        self.entries.len()
    }

    /// Is no note stored?
    pub fn is_empty(&self) -> (empty: bool)
        ensures
            empty == (self@.entries.len() == 0),
    {
        self.entries.len() == 0
    }

    /// The stored notes with their keys, in the order of the memory.
    pub fn entries(&self) -> (entries: &Vec<(String, Note)>)
        ensures
            entries_view(entries@) == self@.entries,
    {
        &self.entries
    }

    /// The history, latest operation last.
    pub fn history(&self) -> (history: &Vec<String>)
        ensures
            strings_view(history@) == self@.history,
    {
        &self.history
    }

    /// The note under `item_key`, if there is one. Nothing is changed.
    pub fn get(&self, item_key: &str) -> (found: Option<&Note>)
        ensures
            match found {
                Some(note) => self@.get(item_key@) == Some(note@),
                None => self@.get(item_key@) is None,
            },
    {
        proof {
            use_type_invariant(self);
        }
        let key = item_key.to_owned();
        match find_key(&self.entries, &key) {
            Some(at) => Some(&self.entries[at].1),
            None => None,
        }
    }

    /// Is a note stored under `item_key`?
    pub fn contains_key(&self, item_key: &str) -> (found: bool)
        ensures
            found == self@.contains_key(item_key@),
    {
        proof {
            use_type_invariant(self);
        }
        let key = item_key.to_owned();
        find_key(&self.entries, &key).is_some()
    }

    /// Hands out the entries and the history, and leaves the memory empty.
    fn take_apart(&mut self) -> (parts: (Vec<(String, Note)>, Vec<String>))
        ensures
            entries_view(parts.0@) == old(self)@.entries,
            strings_view(parts.1@) == old(self)@.history,
            final(self)@ == MemoryView::empty(),
    {
        let mut taken = Memory::new();
        core::mem::swap(self, &mut taken);
        let Memory { entries, history } = taken;
        (entries, history)
    }

    /// Puts `note` under `item_key`, in the place of the note that was there
    /// if there was one, and writes the save into the history.
    pub fn record(&mut self, item_key: &str, note: Note)
        ensures
            final(self)@ == old(self)@.save(item_key@, note@),
            final(self)@.wf(),
    {
        proof {
            use_type_invariant(&*self);
        }
        let ghost before = self@;
        let entry_text = String::from_str(SAVE_PREFIX).concat(item_key);
        let (mut entries, mut history) = self.take_apart();
        put_entry(&mut entries, item_key.to_owned(), note);
        history.push(entry_text);
        assert(strings_view(history@) =~= before.history.push(save_tag(item_key@)));
        *self = Memory { entries, history };
    }

    /// The memory made of these entries, whose keys are all different, and
    /// this history.
    pub(crate) fn assemble(entries: Vec<(String, Note)>, history: Vec<String>) -> (memory: Memory)
        requires
            as_memory(entries@).wf(),
        ensures
            memory@.entries == entries_view(entries@),
            memory@.history == strings_view(history@),
    {
        Memory { entries, history }
    }

    /// Takes back the last operation of the history. With an empty history
    /// nothing is changed. If the last entry is that of a save, the note
    /// under its key is removed; what stood there before the save does not
    /// come back.
    pub fn undo(&mut self) -> (outcome: UndoOutcome)
        ensures
            final(self)@ == old(self)@.undo(),
            final(self)@.wf(),
            outcome.describes(old(self)@),
    {
        proof {
            use_type_invariant(&*self);
        }
        let ghost before = self@;
        let count = self.history.len();
        if count == 0 {
            return UndoOutcome::NothingToUndo;
        }
        let saved: Option<String> = match strip_prefix(self.history[count - 1].as_str(), SAVE_PREFIX) {
            Some(tail) => {
                proof {
                    let last = before.history.last();
                    assert(last.skip(SAVE_PREFIX@.len() as int) =~= tail@);
                }
                Some(tail.to_owned())
            },
            None => None,
        };
        let found: Option<usize> = match &saved {
            Some(key) => find_key(&self.entries, key),
            None => None,
        };
        let (mut entries, mut history) = self.take_apart();
        let last = history.pop().unwrap();
        assert(strings_view(history@) =~= before.history.drop_last());
        match found {
            Some(at) => {
                let _removed = entries.remove(at);
                assert(entries_view(entries@) =~= before.entries.remove(at as int));
            },
            None => {},
        }
        *self = Memory { entries, history };
        match saved {
            Some(key) => UndoOutcome::UndidSave(key),
            None => UndoOutcome::Dropped(last),
        }
    }

    /// The entries whose key, value or one of whose tags has `keyword` as a
    /// part: every match once, in the order of the memory. The comparison is
    /// case-sensitive.
    pub fn search(&self, keyword: &str) -> (found: Vec<(String, Note)>)
        ensures
            entries_view(found@) == self@.search(keyword@),
    {
        let mut found: Vec<(String, Note)> = Vec::new();
        let mut i: usize = 0;
        while i < self.entries.len()
            invariant
                i <= self.entries@.len(),
                entries_view(found@) == self@.entries.take(i as int).filter(matching(keyword@)),
            decreases self.entries@.len() - i,
        {
            let hit = self.entries[i].1.matches(self.entries[i].0.as_str(), keyword);
            proof {
                lemma_filter_step(self@.entries, matching(keyword@), i as int);
            }
            if hit {
                found.push((self.entries[i].0.clone(), self.entries[i].1.duplicate()));
            }
            i += 1;
        }
        assert(self@.entries.take(i as int) =~= self@.entries);
        found
    }

    /// The entries whose note carries exactly the tag `tag`: every match
    /// once, in the order of the memory.
    pub fn with_tag(&self, tag: &str) -> (found: Vec<(String, Note)>)
        ensures
            entries_view(found@) == self@.with_tag(tag@),
    {
        let mut found: Vec<(String, Note)> = Vec::new();
        let mut i: usize = 0;
        while i < self.entries.len()
            invariant
                i <= self.entries@.len(),
                entries_view(found@) == self@.entries.take(i as int).filter(tagged(tag@)),
            decreases self.entries@.len() - i,
        {
            let hit = self.entries[i].1.has_tag(tag);
            proof {
                lemma_filter_step(self@.entries, tagged(tag@), i as int);
            }
            if hit {
                found.push((self.entries[i].0.clone(), self.entries[i].1.duplicate()));
            }
            i += 1;
        }
        assert(self@.entries.take(i as int) =~= self@.entries);
        found
    }

    /// A copy that holds the same notes and the same history.
    pub fn duplicate(&self) -> (copy: Memory)
        ensures
            copy@ == self@,
    {
        proof {
            use_type_invariant(self);
        }
        let mut entries: Vec<(String, Note)> = Vec::new();
        let mut i: usize = 0;
        while i < self.entries.len()
            invariant
                i <= self.entries@.len(),
                entries_view(entries@) == self@.entries.take(i as int),
            decreases self.entries@.len() - i,
        {
            entries.push((self.entries[i].0.clone(), self.entries[i].1.duplicate()));
            assert(self@.entries.take(i + 1) =~= self@.entries.take(i as int).push(
                self@.entries[i as int],
            ));
            i += 1;
        }
        assert(self@.entries.take(i as int) =~= self@.entries);
        let history = copy_strings(self.history.as_slice());
        Memory { entries, history }
    }
}

/// Filtering one entry more: the entry at `i` is added to what the first `i`
/// entries gave if it passes, and left out if it does not.
pub proof fn lemma_filter_step<A>(s: Seq<A>, pred: spec_fn(A) -> bool, i: int)
    requires
        0 <= i < s.len(),
    ensures
        s.take(i + 1).filter(pred) == if pred(s[i]) {
            s.take(i).filter(pred).push(s[i])
        } else {
            s.take(i).filter(pred)
        },
{
    reveal(Seq::filter);
    assert(s.take(i + 1).drop_last() =~= s.take(i));
}

/// A save's history entry is recognised as one, and names the key that was
/// saved.
pub proof fn lemma_save_tag_names_key(key: Seq<char>)
    ensures
        is_save_tag(save_tag(key)),
        saved_key(save_tag(key)) == key,
{
}

/// Entries in the order of their keys hold no key twice.
pub proof fn lemma_ascending_keys_differ(entries: Seq<(Seq<char>, NoteView)>, i: int, j: int)
    requires
        keys_ascend(entries),
        0 <= i < entries.len(),
        0 <= j < entries.len(),
        i != j,
    ensures
        entries[i].0 != entries[j].0,
{
    lemma_text_order(entries[i].0, entries[j].0);
    if i < j {
        assert(text_before(entries[i].0, entries[j].0));
    } else {
        assert(text_before(entries[j].0, entries[i].0));
    }
}

/// In a well-formed memory a key stands where it is found.
pub proof fn lemma_position_unique(m: MemoryView, key: Seq<char>, at: int)
    requires
        m.wf(),
        0 <= at < m.entries.len(),
        m.entries[at].0 == key,
    ensures
        m.contains_key(key),
        m.position(key) == at,
        m.get(key) == Some(m.entries[at].1),
{
    let p = m.position(key);
    if p != at {
        lemma_ascending_keys_differ(m.entries, p, at);
    }
}

/// What the rank of a key says: the entries in front of it have keys that
/// come before the key, and the entry at it, if there is one, has not. Among
/// entries in the order of their keys no entry from the rank on has a key
/// that comes before the key.
pub proof fn lemma_rank(entries: Seq<(Seq<char>, NoteView)>, key: Seq<char>)
    ensures
        0 <= rank(entries, key) <= entries.len(),
        forall|i: int| 0 <= i < rank(entries, key) ==> text_before((#[trigger] entries[i]).0, key),
        rank(entries, key) < entries.len() ==> !text_before(entries[rank(entries, key)].0, key),
        keys_ascend(entries) ==> forall|i: int|
            rank(entries, key) <= i < entries.len() ==> !text_before((#[trigger] entries[i]).0, key),
    decreases entries.len(),
{
    let r = rank(entries, key);
    if entries.len() > 0 && text_before(entries.first().0, key) {
        let rest = entries.drop_first();
        lemma_rank(rest, key);
        assert forall|i: int| 0 <= i < r implies text_before((#[trigger] entries[i]).0, key) by {
            if i > 0 {
                assert(entries[i] == rest[i - 1]);
            }
        }
        if r < entries.len() {
            assert(entries[r] == rest[r - 1]);
        }
    }
    if keys_ascend(entries) {
        assert forall|i: int| r <= i < entries.len() implies !text_before(
            (#[trigger] entries[i]).0,
            key,
        ) by {
            if i > r && text_before(entries[i].0, key) {
                assert(text_before(entries[r].0, entries[i].0));
                lemma_text_before_transitive(entries[r].0, entries[i].0, key);
            }
        }
    }
}

/// Putting a note under a key keeps the entries in the order of their keys,
/// stores the note under that key and leaves every other key as it was.
pub proof fn lemma_put(m: MemoryView, key: Seq<char>, note: NoteView)
    requires
        m.wf(),
        note.wf(),
    ensures
        m.put(key, note).wf(),
        m.put(key, note).items() == m.items().insert(key, note),
        m.put(key, note).history == m.history,
{
    let after = m.put(key, note);
    let at = if m.contains_key(key) { m.position(key) } else { rank(m.entries, key) };
    lemma_rank(m.entries, key);
    // Where each entry of the new memory stood in the old one.
    let old_index = |i: int| if m.contains_key(key) || i < at { i } else { i - 1 };
    assert forall|i: int| 0 <= i < after.entries.len() && i != at implies (
    #[trigger] after.entries[i]) == m.entries[old_index(i)] by {}
    assert(after.entries[at] == (key, note));
    assert forall|i: int| 0 <= i < after.entries.len() implies (#[trigger] after.entries[i]).1.wf() by {
        if i != at {
            assert(m.entries[old_index(i)].1.wf());
        }
    }
    assert forall|i: int, j: int| 0 <= i < j < after.entries.len() implies text_before(
        (#[trigger] after.entries[i]).0,
        (#[trigger] after.entries[j]).0,
    ) by {
        if i != at && j != at {
            assert(text_before(m.entries[old_index(i)].0, m.entries[old_index(j)].0));
        } else if m.contains_key(key) {
            if i == at {
                assert(text_before(m.entries[at].0, m.entries[j].0));
            } else {
                assert(text_before(m.entries[i].0, m.entries[at].0));
            }
        } else if j == at {
            assert(text_before(m.entries[i].0, key));
        } else {
            let behind = m.entries[j - 1];
            assert(!text_before(behind.0, key));
            lemma_text_order(key, behind.0);
        }
    }
    lemma_position_unique(after, key, at);
    assert forall|other: Seq<char>| other != key implies after.contains_key(other)
        == m.contains_key(other) && (m.contains_key(other) ==> after.get(other) == m.get(
        other,
    )) by {
        if m.contains_key(other) {
            let p = m.position(other);
            let np = if m.contains_key(key) || p < at { p } else { p + 1 };
            assert(after.entries[np] == m.entries[p]);
            lemma_position_unique(after, other, np);
        }
        if after.contains_key(other) {
            let p = after.position(other);
            assert(after.entries[p] == m.entries[old_index(p)]);
        }
    }
    assert(after.items() =~= m.items().insert(key, note));
}

/// Taking the note under a key away keeps the entries in the order of their
/// keys, leaves the key without a note and every other key as it was.
pub proof fn lemma_without(m: MemoryView, key: Seq<char>)
    requires
        m.wf(),
    ensures
        m.without(key).wf(),
        m.without(key).items() == m.items().remove(key),
        m.without(key).history == m.history,
        !m.without(key).contains_key(key),
{
    let after = m.without(key);
    if m.contains_key(key) {
        let at = m.position(key);
        let old_index = |i: int| if i < at { i } else { i + 1 };
        assert forall|i: int| 0 <= i < after.entries.len() implies (#[trigger] after.entries[i])
            == m.entries[old_index(i)] by {}
        assert forall|i: int, j: int| 0 <= i < j < after.entries.len() implies text_before(
            (#[trigger] after.entries[i]).0,
            (#[trigger] after.entries[j]).0,
        ) by {
            assert(text_before(m.entries[old_index(i)].0, m.entries[old_index(j)].0));
        }
        assert forall|i: int| 0 <= i < after.entries.len() implies (
        #[trigger] after.entries[i]).0 != key && after.entries[i].1.wf() by {
            lemma_ascending_keys_differ(m.entries, old_index(i), at);
            assert(m.entries[old_index(i)].1.wf());
        }
        assert forall|other: Seq<char>| other != key implies after.contains_key(other)
            == m.contains_key(other) && (m.contains_key(other) ==> after.get(other) == m.get(
            other,
        )) by {
            if m.contains_key(other) {
                let p = m.position(other);
                let np = if p < at { p } else { p - 1 };
                assert(after.entries[np] == m.entries[p]);
                lemma_position_unique(after, other, np);
            }
            if after.contains_key(other) {
                let p = after.position(other);
                assert(after.entries[p] == m.entries[old_index(p)]);
            }
        }
    }
    assert(after.items() =~= m.items().remove(key));
}

/// A save stores the note under its key, leaves every other key as it was
/// and adds one entry to the history.
pub proof fn lemma_save(m: MemoryView, key: Seq<char>, note: NoteView)
    requires
        m.wf(),
        note.wf(),
    ensures
        m.save(key, note).wf(),
        m.save(key, note).items() == m.items().insert(key, note),
        m.save(key, note).get(key) == Some(note),
        m.save(key, note).history == m.history.push(save_tag(key)),
{
    lemma_put(m, key, note);
    let after = m.save(key, note);
    assert(after.items() =~= m.put(key, note).items());
    assert(after.items().dom().contains(key));
    assert(after.items()[key] == note);
}

/// An undo keeps the memory well formed. With an empty history it changes
/// nothing;
/// otherwise it takes exactly the last entry off the history, and that entry
/// is never acted on again.
pub proof fn lemma_undo_wf(m: MemoryView)
    requires
        m.wf(),
    ensures
        m.undo().wf(),
        m.history.len() == 0 ==> m.undo() == m,
        m.history.len() > 0 ==> m.undo().history == m.history.drop_last(),
{
}

/// A save followed at once by an undo leaves no note under the key that was
/// saved, whatever stood there before, and the history as it was before the
/// save. Every other key keeps its note.
pub proof fn lemma_save_then_undo(m: MemoryView, key: Seq<char>, note: NoteView)
    requires
        m.wf(),
        note.wf(),
    ensures
        m.save(key, note).undo().wf(),
        !m.save(key, note).undo().contains_key(key),
        m.save(key, note).undo().items() == m.items().remove(key),
        m.save(key, note).undo().history == m.history,
        !m.contains_key(key) ==> m.save(key, note).undo() == m,
{
    let saved = m.save(key, note);
    lemma_save(m, key, note);
    lemma_save_tag_names_key(key);
    lemma_without(saved, key);
    let undone = saved.undo();
    assert(undone.items() =~= saved.without(key).items());
    if !m.contains_key(key) {
        let at = rank(m.entries, key);
        lemma_rank(m.entries, key);
        lemma_position_unique(saved, key, at);
        assert(saved.entries.remove(at) =~= m.entries);
    }
}

/// A search gives exactly the entries that match: each entry of the memory
/// that matches is among the results, and each result is an entry of the
/// memory that matches.
pub proof fn lemma_search_exact(m: MemoryView, keyword: Seq<char>, entry: (Seq<char>, NoteView))
    ensures
        m.search(keyword).contains(entry) <==> m.entries.contains(entry) && entry.1.matches(
            entry.0,
            keyword,
        ),
{
    let found = m.search(keyword);
    if found.contains(entry) {
        let i = choose|i: int| 0 <= i < found.len() && found[i] == entry;
        m.entries.lemma_filter_pred(matching(keyword), i);
        m.entries.lemma_filter_contains_rev(matching(keyword), entry);
    }
    if m.entries.contains(entry) && entry.1.matches(entry.0, keyword) {
        let i = choose|i: int| 0 <= i < m.entries.len() && m.entries[i] == entry;
        m.entries.lemma_filter_contains(matching(keyword), i);
    }
}

/// The notes with a tag are exactly the entries that carry it.
pub proof fn lemma_with_tag_exact(m: MemoryView, tag: Seq<char>, entry: (Seq<char>, NoteView))
    ensures
        m.with_tag(tag).contains(entry) <==> m.entries.contains(entry) && entry.1.has_tag(tag),
{
    let found = m.with_tag(tag);
    if found.contains(entry) {
        let i = choose|i: int| 0 <= i < found.len() && found[i] == entry;
        m.entries.lemma_filter_pred(tagged(tag), i);
        m.entries.lemma_filter_contains_rev(tagged(tag), entry);
    }
    if m.entries.contains(entry) && entry.1.has_tag(tag) {
        let i = choose|i: int| 0 <= i < m.entries.len() && m.entries[i] == entry;
        m.entries.lemma_filter_contains(tagged(tag), i);
    }
}

/// Gathering entries leaves them in the order of their keys, and has no
/// history.
pub proof fn lemma_gathered_wf(raw: Seq<(Seq<char>, NoteView)>)
    requires
        notes_wf(raw),
    ensures
        MemoryView::gathered(raw).wf(),
        MemoryView::gathered(raw).history == Seq::<Seq<char>>::empty(),
    decreases raw.len(),
{
    if raw.len() > 0 {
        assert(notes_wf(raw.drop_last())) by {
            assert forall|i: int| 0 <= i < raw.drop_last().len() implies (
            #[trigger] raw.drop_last()[i]).1.wf() by {
                assert(raw.drop_last()[i] == raw[i]);
            }
        }
        assert(raw[raw.len() - 1] == raw.last());
        lemma_gathered_wf(raw.drop_last());
        lemma_put(MemoryView::gathered(raw.drop_last()), raw.last().0, raw.last().1);
    }
}

/// Gathering entries that stand in the order of their keys gives just those
/// entries.
pub proof fn lemma_gathered_in_order(raw: Seq<(Seq<char>, NoteView)>)
    requires
        keys_ascend(raw),
    ensures
        MemoryView::gathered(raw).entries == raw,
    decreases raw.len(),
{
    if raw.len() > 0 {
        let front = raw.drop_last();
        let key = raw.last().0;
        assert(keys_ascend(front)) by {
            assert forall|i: int, j: int| 0 <= i < j < front.len() implies text_before(
                (#[trigger] front[i]).0,
                (#[trigger] front[j]).0,
            ) by {
                assert(front[i] == raw[i] && front[j] == raw[j]);
            }
        }
        lemma_gathered_in_order(front);
        let before = MemoryView::gathered(front);
        assert forall|i: int| 0 <= i < front.len() implies text_before(
            (#[trigger] front[i]).0,
            key,
        ) by {
            assert(front[i] == raw[i]);
            assert(raw[raw.len() - 1] == raw.last());
        }
        assert(!before.contains_key(key)) by {
            if before.contains_key(key) {
                let p = before.position(key);
                assert(text_before(front[p].0, key));
                lemma_text_order(key, key);
            }
        }
        lemma_rank(front, key);
        assert(rank(front, key) == front.len()) by {
            let r = rank(front, key);
            if r < front.len() {
                assert(text_before(front[r].0, key));
            }
        }
        assert(front.insert(front.len() as int, raw.last()) =~= raw);
    }
}

/// What a memory holds under its keys decides where its entries stand: two
/// well-formed memories with the same notes under the same keys have the
/// same entries in the same order, however the notes came in.
pub proof fn lemma_items_decide_entries(a: MemoryView, b: MemoryView)
    requires
        a.wf(),
        b.wf(),
        a.items() == b.items(),
    ensures
        a.entries == b.entries,
    decreases a.entries.len(),
{
    assert forall|key: Seq<char>| a.contains_key(key) == b.contains_key(key) by {
        assert(a.items().dom().contains(key) == a.contains_key(key));
        assert(b.items().dom().contains(key) == b.contains_key(key));
    }
    if a.entries.len() == 0 || b.entries.len() == 0 {
        if a.entries.len() > 0 {
            assert(a.contains_key(a.entries[0].0));
        }
        if b.entries.len() > 0 {
            assert(b.contains_key(b.entries[0].0));
        }
        assert(a.entries =~= b.entries);
    } else {
        let ka = a.entries[0].0;
        let kb = b.entries[0].0;
        lemma_position_unique(a, ka, 0);
        lemma_position_unique(b, kb, 0);
        if ka != kb {
            let j = b.position(ka);
            let i = a.position(kb);
            assert(text_before(b.entries[0].0, b.entries[j].0));
            assert(text_before(a.entries[0].0, a.entries[i].0));
            lemma_text_order(ka, kb);
        }
        assert(a.items()[ka] == a.entries[0].1);
        assert(b.items()[kb] == b.entries[0].1);
        assert(a.entries[0] == b.entries[0]);
        let ra = MemoryView { entries: a.entries.drop_first(), history: a.history };
        let rb = MemoryView { entries: b.entries.drop_first(), history: b.history };
        lemma_rest_of(a);
        lemma_rest_of(b);
        assert(ra.items() =~= rb.items()) by {
            assert(ra.items() == a.items().remove(ka));
            assert(rb.items() == b.items().remove(kb));
        }
        lemma_items_decide_entries(ra, rb);
        assert(a.entries =~= seq![a.entries[0]] + a.entries.drop_first());
        assert(b.entries =~= seq![b.entries[0]] + b.entries.drop_first());
    }
}

/// A well-formed memory without its first entry is well formed, and holds
/// what the memory holds under every key but the first.
pub proof fn lemma_rest_of(m: MemoryView)
    requires
        m.wf(),
        m.entries.len() > 0,
    ensures
        (MemoryView { entries: m.entries.drop_first(), history: m.history }).wf(),
        (MemoryView { entries: m.entries.drop_first(), history: m.history }).items()
            == m.items().remove(m.entries[0].0),
{
    let key = m.entries[0].0;
    lemma_position_unique(m, key, 0);
    assert(m.without(key).entries =~= m.entries.drop_first());
    lemma_without(m, key);
    assert((MemoryView { entries: m.entries.drop_first(), history: m.history }) == m.without(key));
}

/// The encoding of a memory depends on its notes and its history alone: two
/// well-formed memories with the same notes under the same keys and the same
/// history are the same memory, however the notes came in.
pub proof fn lemma_content_decides(a: MemoryView, b: MemoryView)
    requires
        a.wf(),
        b.wf(),
        a.items() == b.items(),
        a.history == b.history,
    ensures
        a == b,
{
    lemma_items_decide_entries(a, b);
}

} // verus!
