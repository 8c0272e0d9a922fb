//! The local time, read by the `chrono` crate.

use vstd::prelude::*;

verus! {

/// Date, time of day and time zone: `2021-03-04 05:06:07 +01:00`.
pub const STAMP_LAYOUT: &'static str = "%F %T %Z";

/// Reads the clock with `chrono::Local::now` and writes the local time out
/// with `DateTime::format`. The text depends on the moment and on the time
/// zone of the machine, so nothing is promised of it. A layout that chrono
/// cannot read makes the formatting fail; the one layout that is asked for
/// holds three specifiers that chrono documents.
#[verifier::external_body]
pub(crate) fn local_time(layout: &str) -> (stamp: String)
    requires
        layout@ == STAMP_LAYOUT@,
{
    chrono::Local::now().format(layout).to_string()
}

} // verus!
