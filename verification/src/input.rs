//! What a person types: trimming, and the list of tags on one line.

use vstd::prelude::*;
use vstd::string::*;
use crate::text::{strings_view, to_chars};

verus! {

/// The character is white space in the sense of Unicode (`White_Space` in
/// its character database): one of 25 characters, the ones for which
/// `char::is_whitespace` answers yes.
pub open spec fn white_space(c: char) -> bool {
    let code = c as u32;
    ||| 0x09 <= code <= 0x0D
    ||| code == 0x20
    ||| code == 0x85
    ||| code == 0xA0
    ||| code == 0x1680
    ||| 0x2000 <= code <= 0x200A
    ||| code == 0x2028
    ||| code == 0x2029
    ||| code == 0x202F
    ||| code == 0x205F
    ||| code == 0x3000
}

/// Is the character white space?
pub fn is_white_space(c: char) -> (answer: bool)
    ensures
        answer == white_space(c),
{
    let code: u32 = c as u32;
    (0x09 <= code && code <= 0x0D) || code == 0x20 || code == 0x85 || code == 0xA0 || code
        == 0x1680 || (0x2000 <= code && code <= 0x200A) || code == 0x2028 || code == 0x2029
        || code == 0x202F || code == 0x205F || code == 0x3000
}

/// The text without the white space at its start.
pub open spec fn trim_start(text: Seq<char>) -> Seq<char>
    decreases text.len(),
{
    if text.len() > 0 && white_space(text.first()) {
        trim_start(text.drop_first())
    } else {
        text
    }
}

/// The text without the white space at its end.
pub open spec fn trim_end(text: Seq<char>) -> Seq<char>
    decreases text.len(),
{
    if text.len() > 0 && white_space(text.last()) {
        trim_end(text.drop_last())
    } else {
        text
    }
}

/// The text without the white space at its start and at its end.
pub open spec fn trim(text: Seq<char>) -> Seq<char> {
    trim_end(trim_start(text))
}

/// The parts of a text between the occurrences of a separator, in order. A
/// text without the separator is one part; two separators side by side have
/// an empty part between them.
pub open spec fn pieces(text: Seq<char>, separator: char) -> Seq<Seq<char>>
    decreases text.len(),
{
    if text.len() == 0 {
        seq![Seq::empty()]
    } else {
        let before = pieces(text.drop_last(), separator);
        if text.last() == separator {
            before.push(Seq::empty())
        } else {
            before.drop_last().push(before.last().push(text.last()))
        }
    }
}

/// The trimmed forms of the parts that are not empty after trimming.
pub open spec fn kept(parts: Seq<Seq<char>>) -> Seq<Seq<char>>
    decreases parts.len(),
{
    if parts.len() == 0 {
        Seq::empty()
    } else {
        let before = kept(parts.drop_last());
        if trim(parts.last()).len() > 0 {
            before.push(trim(parts.last()))
        } else {
            before
        }
    }
}

/// The separator between tags on a line.
pub const TAG_SEPARATOR: char = ',';

/// The tags that a line holds: its parts between commas, each trimmed, those
/// left out that are empty then.
pub open spec fn tags_in(line: Seq<char>) -> Seq<Seq<char>> {
    kept(pieces(line, TAG_SEPARATOR))
}

/// Trimming the start takes away white space only, and all of it.
proof fn lemma_trim_start_is(text: Seq<char>, from: int)
    requires
        0 <= from <= text.len(),
        forall|k: int| 0 <= k < from ==> white_space(#[trigger] text[k]),
        from < text.len() ==> !white_space(text[from]),
    ensures
        trim_start(text) == text.skip(from),
    decreases from,
{
    if from == 0 {
    } else {
        let rest = text.drop_first();
        lemma_trim_start_is(rest, from - 1);
    }
}

/// Trimming the end takes away white space only, and all of it.
proof fn lemma_trim_end_is(text: Seq<char>, to: int)
    requires
        0 <= to <= text.len(),
        forall|k: int| to <= k < text.len() ==> white_space(#[trigger] text[k]),
        to > 0 ==> !white_space(text[to - 1]),
    ensures
        trim_end(text) == text.take(to),
    decreases text.len() - to,
{
    if to == text.len() {
    } else {
        let rest = text.drop_last();
        lemma_trim_end_is(rest, to);
    }
}

/// Where the trimmed form of the part of `chars` from `start` to `end`
/// stands.
fn trim_bounds(chars: &Vec<char>, start: usize, end: usize) -> (bounds: (usize, usize))
    requires
        start <= end <= chars@.len(),
    ensures
        start <= bounds.0 <= bounds.1 <= end,
        chars@.subrange(bounds.0 as int, bounds.1 as int) == trim(
            chars@.subrange(start as int, end as int),
        ),
{
    let ghost part = chars@.subrange(start as int, end as int);
    let mut from: usize = start;
    while from < end && is_white_space(chars[from])
        invariant
            start <= from <= end <= chars@.len(),
            forall|k: int| start <= k < from ==> white_space(#[trigger] chars@[k]),
        decreases end - from,
    {
        from += 1;
    }
    let mut to: usize = end;
    while to > from && is_white_space(chars[to - 1])
        invariant
            from <= to <= end <= chars@.len(),
            forall|k: int| to <= k < end ==> white_space(#[trigger] chars@[k]),
        decreases to,
    {
        to -= 1;
    }
    proof {
        lemma_trim_start_is(part, from - start);
        let tail = part.skip(from - start);
        lemma_trim_end_is(tail, to - from);
    }
    (from, to)
}

/// The text without the white space at its start and at its end.
pub fn trimmed(text: &str) -> (short: String)
    ensures
        short@ == trim(text@),
{
    let chars = to_chars(text);
    let (from, to) = trim_bounds(&chars, 0, chars.len());
    assert(chars@.subrange(0, chars@.len() as int) =~= chars@);
    text.substring_char(from, to).to_owned()
}

/// The tags on a line: the parts between commas, each without the white
/// space around it; parts that are empty then are left out.
pub fn parse_tags(line: &str) -> (tags: Vec<String>)
    ensures
        strings_view(tags@) == tags_in(line@),
{
    let chars = to_chars(line);
    let mut tags: Vec<String> = Vec::new();
    let mut start: usize = 0;
    let mut i: usize = 0;
    while i < chars.len()
        invariant
            start <= i <= chars@.len(),
            chars@ == line@,
            pieces(chars@.take(i as int), TAG_SEPARATOR).len() >= 1,
            pieces(chars@.take(i as int), TAG_SEPARATOR).last() == chars@.subrange(
                start as int,
                i as int,
            ),
            strings_view(tags@) == kept(pieces(chars@.take(i as int), TAG_SEPARATOR).drop_last()),
        decreases chars@.len() - i,
    {
        let ghost before = pieces(chars@.take(i as int), TAG_SEPARATOR);
        let ghost after = pieces(chars@.take(i + 1), TAG_SEPARATOR);
        proof {
            assert(chars@.take(i + 1).drop_last() =~= chars@.take(i as int));
        }
        if chars[i] == TAG_SEPARATOR {
            let (from, to) = trim_bounds(&chars, start, i);
            if from < to {
                let tag = line.substring_char(from, to).to_owned();
                tags.push(tag);
            }
            proof {
                assert(after.drop_last() =~= before);
            }
            start = i + 1;
        } else {
            proof {
                assert(after.drop_last() =~= before.drop_last());
            }
        }
        i += 1;
    }
    let (from, to) = trim_bounds(&chars, start, i);
    if from < to {
        let tag = line.substring_char(from, to).to_owned();
        tags.push(tag);
    }
    proof {
        assert(chars@.take(i as int) =~= chars@);
    }
    tags
}

/// The answer that allows network use.
pub const NETWORK_ALLOWED: &'static str = "y";

/// Does the stored answer allow network use? Only a `y`, with or without
/// white space around it, does.
pub fn network_enabled(answer: &str) -> (allowed: bool)
    ensures
        allowed == (trim(answer@) == NETWORK_ALLOWED@),
{
    let short = trimmed(answer);
    let wanted = String::from_str(NETWORK_ALLOWED);
    short == wanted
}

} // verus!
