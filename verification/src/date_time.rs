//! Checked arithmetic on points in time, and the lines that tell date and
//! time.
//!
//! A point in time is held as seconds and nanoseconds since 1970 in UTC. The
//! calendar is that of `chrono`, which knows the years from 262143 before
//! year 0 to 262142 after it and writes a leap second as the 59th second of
//! a minute with a billion nanoseconds or more. The arithmetic is proved to
//! stay within the calendar or to say that it cannot.

use chrono::{DateTime, TimeDelta};
use crate::numerals::{
    decimal, push_decimal, push_signed_decimal, push_two_digits, signed_decimal, two_digits,
};
use crate::string_manip::{chars_of, string_of};
use vstd::prelude::*;

verus! {

/// The seconds of a day.
pub const DAY: i64 = 86_400;

/// The seconds of a week.
pub const WEEK: i64 = 604_800;

/// The largest number of seconds that a time difference holds.
pub const MAX_DELTA: i64 = 9_223_372_036_854_775;

/// The first second of the calendar: the start of the year 262143 before
/// year 0.
pub const MIN_SECS: i64 = -8_334_601_228_800;

/// The last second of the calendar: the end of the year 262142.
pub const MAX_SECS: i64 = 8_210_266_876_799;

/// The nanoseconds of a second.
pub const SECOND: u32 = 1_000_000_000;

/// An instant in UTC: seconds since the start of 1970, and nanoseconds
/// within the second. Within a leap second the seconds are those of the
/// second before, and the nanoseconds go on counting from a billion.
#[derive(Debug, Clone, Copy, PartialEq, Eq, Structural)]
pub struct UtcTime {
    pub secs: i64,
    pub nanos: u32,
}

/// Whether the calendar knows the instant: its second lies within the
/// calendar's years, and its nanoseconds are below a billion, or below two
/// billion in the 59th second of a minute, where a leap second may stand.
pub open spec fn is_date_time(secs: int, nanos: int) -> bool {
    &&& MIN_SECS <= secs <= MAX_SECS
    &&& 0 <= nanos
    &&& (nanos < SECOND || (nanos < 2 * SECOND && secs % 60 == 59))
}

/// The second at which `time` lands when moved by `seconds`. A move out of
/// a leap second starts at the end of that second when it goes forward and
/// at its start when it goes back.
pub open spec fn landing_secs(time: UtcTime, seconds: int) -> int {
    if time.nanos >= SECOND && seconds < 0 {
        time.secs + 1 + seconds
    } else {
        time.secs + seconds
    }
}

/// The nanoseconds with which `time` lands when moved by `seconds`: its own,
/// less a billion where it leaves a leap second.
pub open spec fn landing_nanos(time: UtcTime, seconds: int) -> int {
    if time.nanos >= SECOND && seconds != 0 {
        time.nanos - SECOND
    } else {
        time.nanos as int
    }
}

/// Whether `time` can be moved by `seconds`: the calendar knows `time` and
/// the instant at which it lands, and `seconds` is a difference that a
/// `TimeDelta` holds.
pub open spec fn can_shift(time: UtcTime, seconds: int) -> bool {
    &&& is_date_time(time.secs as int, time.nanos as int)
    &&& -MAX_DELTA <= seconds <= MAX_DELTA
    &&& is_date_time(landing_secs(time, seconds), landing_nanos(time, seconds))
}

/// `time` moved by `seconds`, `None` where it cannot be moved so.
pub open spec fn shift(time: UtcTime, seconds: int) -> Option<UtcTime> {
    if can_shift(time, seconds) {
        Some(
            UtcTime {
                secs: landing_secs(time, seconds) as i64,
                nanos: landing_nanos(time, seconds) as u32,
            },
        )
    } else {
        None
    }
}

/// `DateTime::from_timestamp`: it gives a date and time exactly for the
/// seconds within the calendar's years, with nanoseconds below a billion or,
/// in the 59th second of a minute, below two billion.
#[verifier::external_body]
fn from_timestamp_is_some(secs: i64, nanos: u32) -> (known: bool)
    ensures
        known == is_date_time(secs as int, nanos as int),
{
    DateTime::from_timestamp(secs, nanos).is_some()
}

/// Whether the calendar knows `time`.
pub fn is_known(time: UtcTime) -> (known: bool)
    ensures
        known == is_date_time(time.secs as int, time.nanos as int),
{
    from_timestamp_is_some(time.secs, time.nanos)
}

/// `DateTime::from_timestamp`, `TimeDelta::try_seconds`,
/// `DateTime::checked_add_signed`, `DateTime::timestamp` and
/// `DateTime::timestamp_subsec_nanos`: the instant `seconds` later, where
/// the calendar knows both instants and the difference is one that a
/// `TimeDelta` holds; `None` otherwise. The nanoseconds stay as they are,
/// but a move out of a leap second leaves the billion behind and, where it
/// goes back, starts from the second that follows.
#[verifier::external_body]
fn shifted(time: UtcTime, seconds: i64) -> (moved: Option<UtcTime>)
    ensures
        moved == shift(time, seconds as int),
{
    let start = DateTime::from_timestamp(time.secs, time.nanos)?;
    let moved = start.checked_add_signed(TimeDelta::try_seconds(seconds)?)?;
    Some(UtcTime { secs: moved.timestamp(), nanos: moved.timestamp_subsec_nanos() })
}

/// The instant `seconds` after `time`, or before it where `seconds` is
/// negative; `None` where the calendar does not reach that far.
pub fn checked_add_seconds(time: UtcTime, seconds: i64) -> (moved: Option<UtcTime>)
    ensures
        moved == shift(time, seconds as int),
{
    shifted(time, seconds)
}

/// The same time of day one day earlier.
pub fn day_earlier(date_time: UtcTime) -> (earlier: Option<UtcTime>)
    ensures
        earlier == shift(date_time, -DAY),
{
    shifted(date_time, -DAY)
}

/// The nanoseconds of `time` once it has left a leap second.
pub open spec fn settled_nanos(time: UtcTime) -> int {
    if time.nanos >= SECOND {
        time.nanos - SECOND
    } else {
        time.nanos as int
    }
}

/// The instant two weeks and one more week after `now`, less a day: twenty
/// days on, where the calendar knows `now` and reaches three weeks beyond
/// it.
pub fn almost_three_weeks_from(now: UtcTime) -> (later: Option<UtcTime>)
    ensures
        later is Some <==> is_date_time(now.secs as int, now.nanos as int) && now.secs + 3 * WEEK
            <= MAX_SECS,
        later is Some ==> later->0.secs == now.secs + 20 * DAY && later->0.nanos == settled_nanos(
            now,
        ),
{
    match shifted(now, 2 * WEEK) {
        None => None,
        Some(in_2weeks) => match shifted(in_2weeks, WEEK) {
            None => None,
            Some(in_3weeks) => day_earlier(in_3weeks),
        },
    }
}

/// A move by nothing leaves every instant that the calendar knows where it
/// is.
pub proof fn lemma_no_move(time: UtcTime)
    requires
        is_date_time(time.secs as int, time.nanos as int),
    ensures
        shift(time, 0) == Some(time),
{
}

/// A move there and back ends where it began, for an instant outside a leap
/// second.
pub proof fn lemma_there_and_back(time: UtcTime, seconds: int)
    requires
        time.nanos < SECOND,
        can_shift(time, seconds),
    ensures
        shift(shift(time, seconds)->0, -seconds) == Some(time),
{
}

/// No instant can be moved by the largest difference: the calendar is
/// shorter than that.
pub proof fn lemma_calendar_is_short(time: UtcTime)
    ensures
        shift(time, MAX_DELTA as int) is None,
        shift(time, -MAX_DELTA) is None,
{
}

/// The line that tells the time of day on a clock of twelve hours.
pub open spec fn time_line_text(is_pm: bool, hour: u32, minute: u32, second: u32) -> Seq<char> {
    "The current UTC time is "@ + two_digits(hour as nat) + ":"@ + two_digits(minute as nat) + ":"@
        + two_digits(second as nat) + " "@ + if is_pm {
        "PM"@
    } else {
        "AM"@
    }
}

/// The line that tells the time of day on a clock of twelve hours.
pub fn time_line(is_pm: bool, hour: u32, minute: u32, second: u32) -> (line: String)
    ensures
        line@ == time_line_text(is_pm, hour, minute, second),
{
    let mut out = chars_of("The current UTC time is ");
    push_two_digits(&mut out, hour as u64);
    let mut colon = chars_of(":");
    out.append(&mut colon);
    push_two_digits(&mut out, minute as u64);
    let mut colon = chars_of(":");
    out.append(&mut colon);
    push_two_digits(&mut out, second as u64);
    let mut blank = chars_of(" ");
    out.append(&mut blank);
    let mut half = chars_of(
        if is_pm {
            "PM"
        } else {
            "AM"
        },
    );
    out.append(&mut half);
    proof {
        assert(out@ =~= time_line_text(is_pm, hour, minute, second));
    }
    string_of(&out)
}

/// The line that tells the seconds since midnight.
pub open spec fn seconds_line_text(seconds: u32) -> Seq<char> {
    "And there have been "@ + decimal(seconds as nat) + " seconds since midnight"@
}

/// The line that tells the seconds since midnight.
pub fn seconds_line(seconds: u32) -> (line: String)
    ensures
        line@ == seconds_line_text(seconds),
{
    let mut out = chars_of("And there have been ");
    push_decimal(&mut out, seconds as u64);
    let mut tail = chars_of(" seconds since midnight");
    out.append(&mut tail);
    proof {
        assert(out@ =~= seconds_line_text(seconds));
    }
    string_of(&out)
}

/// The line that tells the date: year, month and day, the day of the week,
/// and whether the year counts from the start of the Common Era or back
/// from it.
pub open spec fn date_line_text(
    is_common_era: bool,
    year: u32,
    month: u32,
    day: u32,
    weekday: Seq<char>,
) -> Seq<char> {
    "The current UTC date is "@ + decimal(year as nat) + "-"@ + two_digits(month as nat) + "-"@
        + two_digits(day as nat) + " "@ + weekday + " ("@ + (if is_common_era {
        "CE"@
    } else {
        "BCE"@
    }) + ")"@
}

/// The line that tells the date.
pub fn date_line(
    is_common_era: bool,
    year: u32,
    month: u32,
    day: u32,
    weekday: &str,
) -> (line: String)
    ensures
        line@ == date_line_text(is_common_era, year, month, day, weekday@),
{
    let mut out = chars_of("The current UTC date is ");
    push_decimal(&mut out, year as u64);
    let mut dash = chars_of("-");
    out.append(&mut dash);
    push_two_digits(&mut out, month as u64);
    let mut dash = chars_of("-");
    out.append(&mut dash);
    push_two_digits(&mut out, day as u64);
    let mut blank = chars_of(" ");
    out.append(&mut blank);
    let mut name = chars_of(weekday);
    out.append(&mut name);
    let mut open = chars_of(" (");
    out.append(&mut open);
    let mut era = chars_of(
        if is_common_era {
            "CE"
        } else {
            "BCE"
        },
    );
    out.append(&mut era);
    let mut close = chars_of(")");
    out.append(&mut close);
    proof {
        assert(out@ =~= date_line_text(is_common_era, year, month, day, weekday@));
    }
    string_of(&out)
}

/// The line that tells the days since the Common Era began.
pub open spec fn era_line_text(days: i32) -> Seq<char> {
    "And the Common Era began "@ + signed_decimal(days as int) + " days ago"@
}

/// The line that tells the days since the Common Era began.
pub fn era_line(days: i32) -> (line: String)
    ensures
        line@ == era_line_text(days),
{
    let mut out = chars_of("And the Common Era began ");
    push_signed_decimal(&mut out, days as i64);
    let mut tail = chars_of(" days ago");
    out.append(&mut tail);
    proof {
        assert(out@ =~= era_line_text(days));
    }
    string_of(&out)
}

} // verus!
