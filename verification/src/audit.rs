//! The lines of the audit log.

use vstd::prelude::*;
use vstd::string::*;
use crate::timestamp::Timestamp;

verus! {

/// What stands between the event and its time in a line of the audit log.
pub const AUDIT_JOINT: &'static str = " at ";

/// What ends a line of the audit log.
pub const AUDIT_LINE_END: &'static str = "\n";

/// The event recorded at first setup.
pub const ONBOARDED: &'static str = "onboarded user";

/// The event recorded at a recovery.
pub const RECOVERED: &'static str = "recovery performed";

/// The line that records `event` at the time `stamp`: the event, ` at `, the
/// time as it is written, and a line end.
pub fn audit_line(event: &str, stamp: &Timestamp) -> (line: String)
    ensures
        line@ == event@ + AUDIT_JOINT@ + stamp@ + AUDIT_LINE_END@,
{
    String::from_str(event).concat(AUDIT_JOINT).concat(stamp.as_str()).concat(AUDIT_LINE_END)
}

} // verus!
