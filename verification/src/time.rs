//! Instants and calendar dates, read from text.

use crate::text::{decimal_of, digit};
use vstd::prelude::*;

verus! {

/// An instant: seconds since the Unix epoch and nanoseconds on top of them.
#[derive(Clone, Copy, Debug, PartialEq, Eq, Structural)]
pub struct Instant {
    pub seconds: i64,
    pub nanos: u32,
}

impl Instant {
    /// The instant lies in a leap second, whose nanoseconds run on.
    pub open spec fn in_leap_second(self) -> bool {
        self.nanos >= 1_000_000_000
    }

    /// Whether this instant comes before the other.
    pub open spec fn is_before(self, other: Instant) -> bool {
        self.seconds < other.seconds || (self.seconds == other.seconds && self.nanos < other.nanos)
    }

    /// Whether this instant comes before the other.
    pub fn before(&self, other: &Instant) -> (r: bool)
        ensures
            r == self.is_before(*other),
    {
        self.seconds < other.seconds || (self.seconds == other.seconds && self.nanos < other.nanos)
    }
}

/// A day of the Gregorian calendar.
#[derive(Clone, Copy, Debug, PartialEq, Eq, Structural)]
pub struct Day {
    pub year: i32,
    pub month: u32,
    pub day: u32,
}

/// Whether a year of the Gregorian calendar has a 29 February.
pub open spec fn is_leap(year: int) -> bool {
    year % 4 == 0 && (year % 100 != 0 || year % 400 == 0)
}

/// The length of a month.
pub open spec fn days_in_month(year: int, month: int) -> int {
    if month == 2 {
        if is_leap(year) {
            29
        } else {
            28
        }
    } else if month == 4 || month == 6 || month == 9 || month == 11 {
        30
    } else {
        31
    }
}

/// The days of a year before the first of a month.
pub open spec fn days_before_month(year: int, month: int) -> int
    decreases month,
{
    if month <= 1 {
        0
    } else {
        days_before_month(year, month - 1) + days_in_month(year, month - 1)
    }
}

/// The days from the first of January of the year 0 to that of another year.
pub open spec fn days_before_year(year: int) -> int {
    365 * year + (year + 3) / 4 - (year + 99) / 100 + (year + 399) / 400
}

/// `n` in decimal, with zeros in front up to four digits.
pub open spec fn four_digits(n: nat) -> Seq<char> {
    if n < 1000 {
        seq!['0', digit(n / 100), digit(n / 10 % 10), digit(n % 10)]
    } else {
        decimal_of(n)
    }
}

/// A year in at least four digits; one that needs more, or lies before the year 0,
/// has a sign.
pub open spec fn year_text(year: int) -> Seq<char> {
    if year < 0 {
        seq!['-'] + four_digits((-year) as nat)
    } else if year > 9999 {
        seq!['+'] + decimal_of(year as nat)
    } else {
        four_digits(year as nat)
    }
}

/// The seconds of a day.
pub open spec fn day_seconds() -> int {
    86400
}

impl Day {
    /// The calendar has this day.
    pub open spec fn exists_in_calendar(self) -> bool {
        1 <= self.month <= 12 && 1 <= self.day <= days_in_month(
            self.year as int,
            self.month as int,
        )
    }

    /// The days from 1 January 1970 to this day.
    pub open spec fn number(self) -> int {
        days_before_year(self.year as int) + days_before_month(self.year as int, self.month as int)
            + self.day - 1 - days_before_year(1970)
    }

    /// The day as `YYYY-MM-DD`.
    pub open spec fn written(self) -> Seq<char> {
        year_text(self.year as int) + seq![
            '-',
            digit((self.month / 10) as nat),
            digit((self.month % 10) as nat),
            '-',
            digit((self.day / 10) as nat),
            digit((self.day % 10) as nat),
        ]
    }

    /// It is this day at an instant, in a place whose clocks are `offset` seconds
    /// ahead of UTC, less than a day either way.
    pub open spec fn is_at(self, at: Instant, offset: int) -> bool {
        &&& -day_seconds() < offset < day_seconds()
        &&& self.exists_in_calendar()
        &&& self.number() == (at.seconds + offset) / day_seconds()
    }
}

/// A text is the date of an instant at some offset from UTC.
pub open spec fn is_local_date(text: Seq<char>, at: Instant) -> bool {
    exists|day: Day, offset: int| #[trigger] day.is_at(at, offset) && text == day.written()
}

/// What parsing a text as `chrono::DateTime<Utc>` gives: the instant, or what
/// the error says.
pub uninterp spec fn utc_result(text: Seq<char>) -> Result<Instant, Seq<char>>;

/// `str::parse` into a `chrono::DateTime<Utc>`: the instant that the text
/// writes, or the message of the error. Both depend on the text alone.
#[verifier::external_body]
pub(crate) fn parse_utc(text: &str) -> (r: Result<Instant, String>)
    ensures
        match r {
            Ok(t) => utc_result(text@) == Ok::<Instant, Seq<char>>(t),
            Err(e) => utc_result(text@) == Err::<Instant, Seq<char>>(e@),
        },
{
    match text.parse::<chrono::DateTime<chrono::Utc>>() {
        Ok(t) => Ok(Instant { seconds: t.timestamp(), nanos: t.timestamp_subsec_nanos() }),
        Err(e) => Err(e.to_string()),
    }
}

/// What `chrono::NaiveDate::parse_from_str` gives for a text and a format: the
/// day, or what the error says.
pub uninterp spec fn day_result(text: Seq<char>, format: Seq<char>) -> Result<Day, Seq<char>>;

/// `chrono::NaiveDate::parse_from_str`: the day that the text writes in the
/// given format, or the message of the error. Both depend on the two texts alone.
#[verifier::external_body]
pub(crate) fn parse_day(text: &str, format: &str) -> (r: Result<Day, String>)
    ensures
        match r {
            Ok(d) => day_result(text@, format@) == Ok::<Day, Seq<char>>(d),
            Err(e) => day_result(text@, format@) == Err::<Day, Seq<char>>(e@),
        },
{
    match chrono::NaiveDate::parse_from_str(text, format) {
        Ok(d) => Ok(
            Day {
                year: chrono::Datelike::year(&d),
                month: chrono::Datelike::month(&d),
                day: chrono::Datelike::day(&d),
            },
        ),
        Err(e) => Err(e.to_string()),
    }
}

/// What `chrono::DateTime::parse_from_rfc3339` gives for a text.
pub uninterp spec fn rfc3339_result(text: Seq<char>) -> Option<Instant>;

/// `chrono::DateTime::parse_from_rfc3339`: the instant that the text writes,
/// `None` where it is not in that form. It depends on the text alone.
#[verifier::external_body]
pub(crate) fn parse_rfc3339(text: &str) -> (r: Option<Instant>)
    ensures
        r == rfc3339_result(text@),
{
    match chrono::DateTime::parse_from_rfc3339(text) {
        Ok(t) => Some(Instant { seconds: t.timestamp(), nanos: t.timestamp_subsec_nanos() }),
        Err(_) => None,
    }
}

/// A text that ends in the `Z` for UTC, as stamps of the current time do.
pub open spec fn is_stamp(text: Seq<char>) -> bool {
    text.len() > 0 && text.last() == 'Z'
}

/// `chrono::Utc::now`, written by `DateTime::to_rfc3339_opts` to the second
/// with a `Z` for the zone. It tells the time of the call; of the text only
/// that it ends in that `Z` is claimed.
#[verifier::external_body]
pub(crate) fn now_stamp() -> (r: String)
    ensures
        is_stamp(r@),
{
    chrono::Utc::now().to_rfc3339_opts(chrono::SecondsFormat::Secs, true)
}

/// `chrono::DateTime::parse_from_rfc3339`, taken to local time by
/// `with_timezone` and written by `format`: the local date of the instant that
/// the text writes, as `YYYY-MM-DD`. It depends on the time zone of the machine;
/// claimed is that there is a date just where the text can be read, and that it is
/// the date of that instant at some offset from UTC. Which offset is left open. An
/// unknown format would panic.
#[verifier::external_body]
pub(crate) fn local_date(text: &str, format: &str) -> (r: Option<String>)
    requires
        format@ == "%Y-%m-%d"@,
    ensures
        match r {
            Some(date) => rfc3339_result(text@) is Some && is_local_date(
                date@,
                rfc3339_result(text@)->0,
            ),
            None => rfc3339_result(text@) is None,
        },
{
    chrono::DateTime::parse_from_rfc3339(text)
        .ok()
        .map(|t| t.with_timezone(&chrono::Local).format(format).to_string())
}

/// The milliseconds from one instant to another, rounded towards zero.
pub open spec fn whole_millis(start: Instant, end: Instant) -> int {
    let nanos = (end.seconds - start.seconds) * 1_000_000_000 + end.nanos - start.nanos;
    if nanos >= 0 {
        nanos / 1_000_000
    } else {
        -((-nanos) / 1_000_000)
    }
}

/// What `chrono::DateTime::signed_duration_since` and `num_milliseconds` give
/// for the instants that two texts write in RFC 3339.
pub uninterp spec fn millis_between(start: Seq<char>, end: Seq<char>) -> Option<i64>;

/// `chrono::DateTime::signed_duration_since` of two instants that
/// `parse_from_rfc3339` reads, in whole milliseconds by `num_milliseconds`;
/// `None` where one of them cannot be read. It depends on the two texts alone. Leap
/// seconds aside, it is the time between the instants, rounded towards zero.
#[verifier::external_body]
pub(crate) fn elapsed_millis(start: &str, end: &str) -> (r: Option<i64>)
    ensures
        r == millis_between(start@, end@),
        r is Some == (rfc3339_result(start@) is Some && rfc3339_result(end@) is Some),
        r is Some && !rfc3339_result(start@)->0.in_leap_second() && !rfc3339_result(
            end@,
        )->0.in_leap_second() ==> r->0 == whole_millis(
            rfc3339_result(start@)->0,
            rfc3339_result(end@)->0,
        ),
{
    let s = chrono::DateTime::parse_from_rfc3339(start).ok()?;
    let e = chrono::DateTime::parse_from_rfc3339(end).ok()?;
    Some(e.signed_duration_since(s).num_milliseconds())
}

/// A time of day as `HH:MM`.
pub open spec fn clock_text(hour: nat, minute: nat) -> Seq<char> {
    seq![digit(hour / 10), digit(hour % 10), ':', digit(minute / 10), digit(minute % 10)]
}

/// A text is a time of day.
pub open spec fn is_clock(text: Seq<char>) -> bool {
    exists|hour: nat, minute: nat|
        hour < 24 && minute < 60 && text == #[trigger] clock_text(hour, minute)
}

/// `chrono::Local::now`, written by `format` as hours and minutes: the time of
/// day on this machine. It tells the time of the call; claimed is only that it is a
/// time of day.
#[verifier::external_body]
pub(crate) fn local_clock() -> (r: String)
    ensures
        is_clock(r@),
{
    chrono::Local::now().format("%H:%M").to_string()
}

} // verus!
