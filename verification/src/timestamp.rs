//! The moment at which something was recorded, kept as the text that is
//! persisted: a written time in canonical form.

use vstd::prelude::*;
use vstd::string::*;

verus! {

/// A point in time in its written form (RFC 3339, as in
/// `2024-05-01T12:34:56.789Z`). The text is always a written time in
/// canonical form: what is no time cannot be a timestamp.
#[derive(Debug)]
pub struct Timestamp {
    text: String,
}

impl View for Timestamp {
    type V = Seq<char>;

    closed spec fn view(&self) -> Seq<char> {
        self.text@
    }
}

/// The canonical written form of the time that `text` denotes: what
/// chrono's parser for `DateTime<Utc>` (a relaxed RFC 3339) makes of `text`,
/// written down again in UTC. There is none where the parser refuses `text`.
pub uninterp spec fn timestamp_canonical(text: Seq<char>) -> Option<Seq<char>>;

/// The text is a written time in canonical form: the parser reads it, and
/// what it reads is written down as this very text.
pub open spec fn is_canonical_time(text: Seq<char>) -> bool {
    timestamp_canonical(text) == Some(text)
}

/// Reads the system clock with `chrono::Utc::now` and writes the instant down
/// with `DateTime::to_rfc3339_opts` (shortest exact fraction, `Z` for UTC).
///
/// Taken on trust: whatever the clock reads, the text is a written time in
/// canonical form. chrono's parser reads what this writer writes, a year
/// beyond 9999 with its sign too, as the same instant, and the writer is the
/// one by which the canonical form is defined. Nothing is promised of which
/// time it is. `Utc::now` stops the program if the clock reads a time before
/// 1970.
#[verifier::external_body]
fn clock_text() -> (text: String)
    ensures
        is_canonical_time(text@),
{
    chrono::Utc::now().to_rfc3339_opts(chrono::SecondsFormat::AutoSi, true)
}

/// `str::parse::<chrono::DateTime<chrono::Utc>>` (chrono's `FromStr`), and on
/// success `DateTime::to_rfc3339_opts` with the shortest exact fraction and
/// `Z` for UTC.
///
/// Taken on trust: the result is a function of the text alone, and what is
/// written is itself a written time in canonical form: as with the clock's
/// reading, the parser reads what the writer wrote as the same instant, a
/// leap second and a year beyond 9999 too.
#[verifier::external_body]
fn canonical_text(text: &str) -> (canonical: Option<String>)
    ensures
        match canonical {
            Some(written) => timestamp_canonical(text@) == Some(written@) && is_canonical_time(
                written@,
            ),
            None => timestamp_canonical(text@) is None,
        },
{
    let instant = text.parse::<chrono::DateTime<chrono::Utc>>().ok()?;
    Some(instant.to_rfc3339_opts(chrono::SecondsFormat::AutoSi, true))
}

impl Timestamp {
    #[verifier::type_invariant]
    spec fn written_in_canonical_form(&self) -> bool {
        is_canonical_time(self.text@)
    }

    /// Every timestamp is a written time in canonical form.
    pub fn proves_canonical(&self)
        ensures
            is_canonical_time(self@),
    {
        proof {
            use_type_invariant(self);
        }
    }

    /// Reads a written time (RFC 3339; a space may stand for the `T`) and
    /// keeps it in its canonical form. There is no timestamp where `text`
    /// does not denote a time.
    pub fn parse(text: &str) -> (stamp: Option<Timestamp>)
        ensures
            match stamp {
                Some(read) => timestamp_canonical(text@) == Some(read@) && is_canonical_time(
                    read@,
                ),
                None => timestamp_canonical(text@) is None,
            },
    {
        match canonical_text(text) {
            Some(written) => Some(Timestamp { text: written }),
            None => None,
        }
    }

    /// The present moment, read from the system clock and written down in
    /// canonical form: reading it with [`Timestamp::parse`] gives the same
    /// timestamp. Which moment it is depends on the clock.
    pub fn now() -> (stamp: Timestamp)
        ensures
            is_canonical_time(stamp@),
    {
        Timestamp { text: clock_text() }
    }

    /// The written form.
    pub fn as_str(&self) -> (text: &str)
        ensures
            text@ == self@,
            is_canonical_time(text@),
    {
        proof {
            use_type_invariant(self);
        }
        self.text.as_str()
    }

    /// A copy with the same written form.
    pub fn duplicate(&self) -> (copy: Timestamp)
        ensures
            copy@ == self@,
    {
        proof {
            use_type_invariant(self);
        }
        Timestamp { text: self.text.clone() }
    }
}

} // verus!
