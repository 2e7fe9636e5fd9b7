//! Commit times as local date text.

use chrono::TimeZone;
use vstd::prelude::*;

verus! {

/// The first second, counted from the Unix epoch, that lies in one of the
/// years 0 to 9999 in every time zone.
pub const PLAIN_YEARS_BEGIN: i64 = -62_167_132_800;

/// The first second behind those that lie in one of the years 0 to 9999
/// in every time zone.
pub const PLAIN_YEARS_END: i64 = 253_402_214_400;

/// Whether a time lies in one of the years 0 to 9999 wherever its date is
/// taken: a local time is less than a day from universal time.
pub open spec fn in_plain_years(seconds: i64) -> bool {
    PLAIN_YEARS_BEGIN <= seconds < PLAIN_YEARS_END
}

/// Whether `c` is one of the digits `0` to `9`.
pub open spec fn is_digit(c: char) -> bool {
    '0' <= c <= '9'
}

/// Whether `t` is a date and a time of day to the second, in the shape
/// `YYYY-MM-DD HH:MM:SS`. The year has four digits, or a sign and four
/// digits or more; month, day, hour, minute and second have two digits
/// each.
pub open spec fn is_date_text(t: Seq<char>) -> bool {
    let y = t.len() - 15;
    &&& t.len() >= 19
    &&& (y == 4 && is_digit(t[0])) || (y >= 5 && (t[0] == '+' || t[0] == '-'))
    &&& forall|i: int| 0 < i < y ==> is_digit(#[trigger] t[i])
    &&& t[y] == '-'
    &&& is_digit(t[y + 1])
    &&& is_digit(t[y + 2])
    &&& t[y + 3] == '-'
    &&& is_digit(t[y + 4])
    &&& is_digit(t[y + 5])
    &&& t[y + 6] == ' '
    &&& is_digit(t[y + 7])
    &&& is_digit(t[y + 8])
    &&& t[y + 9] == ':'
    &&& is_digit(t[y + 10])
    &&& is_digit(t[y + 11])
    &&& t[y + 12] == ':'
    &&& is_digit(t[y + 13])
    &&& is_digit(t[y + 14])
}

/// The number that the digits of `t` write.
pub open spec fn number(t: Seq<char>) -> int
    decreases t.len(),
{
    if t.len() == 0 {
        0
    } else {
        10 * number(t.drop_last()) + (t.last() as int - '0' as int)
    }
}

/// The days from the first of January 1970 to a day of the Gregorian
/// calendar, which is taken to hold at all times; a year 0 precedes the
/// year 1. Years are counted from March, so that the leap day is the
/// last of its year, in cycles of 400 years of 146 097 days.
pub open spec fn days_from_epoch(year: int, month: int, day: int) -> int {
    let y = if month <= 2 {
        year - 1
    } else {
        year
    };
    let cycle = y / 400;
    let year_of_cycle = y - cycle * 400;
    let month_from_march = if month > 2 {
        month - 3
    } else {
        month + 9
    };
    let day_of_year = (153 * month_from_march + 2) / 5 + day - 1;
    let day_of_cycle = year_of_cycle * 365 + year_of_cycle / 4 - year_of_cycle / 100
        + day_of_year;
    cycle * 146_097 + day_of_cycle - 719_468
}

/// The year that a date text shows.
pub open spec fn shown_year(t: Seq<char>) -> int {
    let y = t.len() - 15;
    if t[0] == '-' {
        -number(t.subrange(1, y))
    } else if t[0] == '+' {
        number(t.subrange(1, y))
    } else {
        number(t.subrange(0, y))
    }
}

/// The time that a date text shows when it is read as a universal date
/// and time, in seconds from the Unix epoch.
pub open spec fn shown_seconds(t: Seq<char>) -> int {
    let y = t.len() - 15;
    let month = number(t.subrange(y + 1, y + 3));
    let day = number(t.subrange(y + 4, y + 6));
    let hour = number(t.subrange(y + 7, y + 9));
    let minute = number(t.subrange(y + 10, y + 12));
    let second = number(t.subrange(y + 13, y + 15));
    days_from_epoch(shown_year(t), month, day) * 86_400 + hour * 3_600 + minute * 60 + second
}

/// Whether a date text shows a time less than a day from `seconds`: a
/// local time differs from universal time by less than a day.
pub open spec fn shows_local_time(t: Seq<char>, seconds: i64) -> bool {
    seconds - 86_400 < shown_seconds(t) < seconds + 86_400
}

/// Calls `chrono::Local.timestamp_opt(seconds, 0)`, takes the single
/// local time it maps to and formats it with
/// `DateTime::format("%Y-%m-%d %H:%M:%S")`. Which date the text shows
/// depends on the time zone of the machine, so the contract claims only
/// what holds in every time zone: the text has the shape that the format
/// gives, with a year of four digits for a time in the years 0 to 9999;
/// it shows the time `seconds` moved by the offset of the zone, which
/// `chrono::FixedOffset` keeps under a day; and a time in those years has
/// a date, since `timestamp_opt` returns `None` only for a number of
/// seconds that chrono cannot represent.
#[verifier::external_body]
fn local_time_text(seconds: i64) -> (text: Option<String>)
    ensures
        text is Some ==> is_date_text(text->0@),
        text is Some ==> shows_local_time(text->0@, seconds),
        in_plain_years(seconds) ==> text is Some && text->0@.len() == 19,
{
    chrono::Local.timestamp_opt(seconds, 0).single().map(
        |t| t.format("%Y-%m-%d %H:%M:%S").to_string(),
    )
}

/// The date of a commit as the records show it: the local date and time
/// where the commit time has one, else `Unknown`.
pub open spec fn shown_date(local: Option<Seq<char>>) -> Seq<char> {
    match local {
        Some(text) => text,
        None => "Unknown"@,
    }
}

/// The date of a commit as the records show it, given the local date and
/// time of its commit time, if it has one.
pub fn date_text(local: Option<String>) -> (text: String)
    ensures
        text@ == shown_date(
            match local {
                Some(t) => Some(t@),
                None => None,
            },
        ),
{
    match local {
        Some(text) => text,
        None => "Unknown".to_owned(),
    }
}

/// What holds of the text that dates a commit of the time `seconds`: it
/// is `Unknown`, or a date and time of day that is less than a day from
/// `seconds` when it is read as universal time; and it is such a date,
/// of nineteen characters, for a time in the years 0 to 9999.
pub open spec fn is_date_of(text: Seq<char>, seconds: i64) -> bool {
    &&& text == "Unknown"@ || (is_date_text(text) && shows_local_time(text, seconds))
    &&& in_plain_years(seconds) ==> is_date_text(text) && text.len() == 19
}

/// The commit time `seconds`, counted from the Unix epoch, as a date and
/// time of day in the local time zone, to the second; `Unknown` for a
/// time that has no such date. A time in the years 0 to 9999 has one, of
/// nineteen characters.
pub fn format_git_time(seconds: i64) -> (text: String)
    ensures
        is_date_of(text@, seconds),
{
    date_text(local_time_text(seconds))
}

} // verus!
