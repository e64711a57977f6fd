//! An instant as wall-clock time and date in a zone at a given offset from
//! Greenwich.

use crate::timestamp::{Timestamp, NANOS_PER_SEC};
use chrono::{DateTime, FixedOffset};
use vstd::prelude::*;

verus! {

/// The first second, counted from the epoch, that has a date: the first of
/// January 1 of the year -262143.
pub const FIRST_SECOND_WITH_DATE: i64 = -8_334_601_228_800;

/// The last second, counted from the epoch, that has a date: the last of
/// December 31 of the year 262142.
pub const LAST_SECOND_WITH_DATE: i64 = 8_210_266_876_799;

/// Whether the calendar has a date for the second `secs` after the epoch.
pub open spec fn has_date(secs: int) -> bool {
    FIRST_SECOND_WITH_DATE <= secs <= LAST_SECOND_WITH_DATE
}

/// Whether a zone can lie `offset` seconds east of Greenwich: less than a day
/// either way.
pub open spec fn is_zone_offset(offset: int) -> bool {
    -86_400 < offset < 86_400
}

/// How an absolute time is written: time of day, then day, month and year, as
/// in `14:03:59 07-Mar-2024`.
pub open spec fn time_format() -> Seq<char> {
    "%H:%M:%S %d-%b-%Y"@
}

/// What `chrono` writes, in the format `format`, for the instant `secs`
/// seconds and `nanos` nanoseconds after the epoch in a zone `offset` seconds
/// east of Greenwich; `None` where it has no such instant or no such zone.
pub uninterp spec fn clock_text(format: Seq<char>, secs: int, nanos: int, offset: int) -> Option<
    Seq<char>,
>;

/// The text of an absolute time, if there is one.
pub open spec fn absolute_text(absolute: Option<String>) -> Option<Seq<char>> {
    match absolute {
        Some(text) => Some(text@),
        None => None,
    }
}

/// The text for an instant in the zone whose offset was looked up: the one
/// written for that offset, and none where no offset was found.
pub open spec fn text_with(secs: int, nanos: int, offset: Option<i32>) -> Option<Seq<char>> {
    match offset {
        Some(seconds) => clock_text(time_format(), secs, nanos, seconds as int),
        None => None,
    }
}

/// Whether there is a text for the second `secs` in the zone whose offset was
/// looked up: an offset was found, it is less than a day, and the second has a
/// date.
pub open spec fn has_text(secs: int, offset: Option<i32>) -> bool {
    match offset {
        Some(seconds) => has_date(secs) && is_zone_offset(seconds as int),
        None => false,
    }
}

/// Calls `DateTime::from_timestamp`, `FixedOffset::east_opt`,
/// `DateTime::with_timezone` and `DateTime::format` of `chrono`. Trusted: the
/// outcome is a function of the format and the three numbers alone, named
/// `clock_text`; there is a text exactly where `from_timestamp` has a date and
/// `east_opt` a zone, which it has for every offset of less than a day.
#[verifier::external_body]
fn format_at_offset(format: &str, secs: i64, nanos: u32, offset: i32) -> (text: Option<String>)
    requires
        format@ == time_format(),
        nanos < NANOS_PER_SEC,
    ensures
        absolute_text(text) == clock_text(format@, secs as int, nanos as int, offset as int),
        text is Some <==> (has_date(secs as int) && is_zone_offset(offset as int)),
{
    let utc = DateTime::from_timestamp(secs, nanos)?;
    let zone = FixedOffset::east_opt(offset)?;
    Some(utc.with_timezone(&zone).format(format).to_string())
}

/// Renders `t` as time of day and date, `HH:MM:SS DD-Mon-YYYY`, in a zone
/// `offset` seconds east of Greenwich. There is a text exactly where `t` has a
/// date and the offset is less than a day.
pub fn time_text_at(t: &Timestamp, offset: i32) -> (text: Option<String>)
    ensures
        absolute_text(text) == clock_text(
            time_format(),
            t.spec_secs(),
            t.spec_subsec_nanos(),
            offset as int,
        ),
        text is Some <==> has_date(t.spec_secs()) && is_zone_offset(offset as int),
{
    format_at_offset("%H:%M:%S %d-%b-%Y", t.secs(), t.subsec_nanos(), offset)
}

/// Renders `t` as local time of day and date, `HH:MM:SS DD-Mon-YYYY`, for the
/// offset from Greenwich that the local zone was found to have at `t`. There is
/// a text exactly where an offset was found, it is less than a day, and `t` has
/// a date.
pub fn human_readable_system_time(t: &Timestamp, offset: Option<i32>) -> (text: Option<String>)
    ensures
        absolute_text(text) == text_with(t.spec_secs(), t.spec_subsec_nanos(), offset),
        text is Some <==> has_text(t.spec_secs(), offset),
{
    match offset {
        Some(seconds) => time_text_at(t, seconds),
        None => None,
    }
}

} // verus!
