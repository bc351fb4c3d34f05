//! Calendar date-times as plain fields, and the chrono operations that the
//! timesheet needs on them: formatting, parsing, the span between two and
//! stepping back one day.

use chrono::{Datelike, NaiveDate, NaiveDateTime, NaiveTime, TimeDelta, Timelike};
use vstd::prelude::*;

use crate::text::{nat_text, digit_char};

verus! {

/// The earliest year chrono represents.
pub const MIN_YEAR: i32 = -262143;

/// The latest year chrono represents.
pub const MAX_YEAR: i32 = 262142;

/// A date and time of day without time zone, in the proleptic Gregorian
/// calendar (chrono's `NaiveDateTime`), held as its fields.
///
/// A nanosecond of 1_000_000_000 or more marks a leap second (then the
/// second is 59).
#[derive(Clone, Copy, Debug)]
pub struct DateTime {
    pub year: i32,
    pub month: u32,
    pub day: u32,
    pub hour: u32,
    pub minute: u32,
    pub second: u32,
    pub nanosecond: u32,
}

/// Whether `y` is a leap year of the proleptic Gregorian calendar.
pub open spec fn is_leap_year(y: int) -> bool {
    (y % 4 == 0 && y % 100 != 0) || y % 400 == 0
}

/// The number of days of month `m` in year `y`.
pub open spec fn days_in_month(y: int, m: int) -> int {
    if m == 2 {
        if is_leap_year(y) {
            29
        } else {
            28
        }
    } else if m == 4 || m == 6 || m == 9 || m == 11 {
        30
    } else {
        31
    }
}

/// Whether `y-m-d` is a date that chrono represents.
pub open spec fn valid_date(y: int, m: int, d: int) -> bool {
    &&& MIN_YEAR <= y <= MAX_YEAR
    &&& 1 <= m <= 12
    &&& 1 <= d <= days_in_month(y, m)
}

/// Whether the fields form a time of day that chrono represents.
pub open spec fn valid_time(h: int, mi: int, s: int, ns: int) -> bool {
    &&& 0 <= h < 24
    &&& 0 <= mi < 60
    &&& 0 <= s < 60
    &&& 0 <= ns < 2_000_000_000
    &&& (ns >= 1_000_000_000 ==> s == 59)
}

impl DateTime {
    /// Whether the fields form a date-time that chrono represents.
    pub open spec fn wf(self) -> bool {
        &&& valid_date(self.year as int, self.month as int, self.day as int)
        &&& valid_time(
            self.hour as int,
            self.minute as int,
            self.second as int,
            self.nanosecond as int,
        )
    }

    /// Whether two date-times fall on the same calendar day.
    pub open spec fn same_date(self, other: DateTime) -> bool {
        self.year == other.year && self.month == other.month && self.day == other.day
    }

    /// Whether `self` comes strictly before `other` (chrono's ordering).
    pub open spec fn before(self, other: DateTime) -> bool {
        if self.year != other.year {
            self.year < other.year
        } else if self.month != other.month {
            self.month < other.month
        } else if self.day != other.day {
            self.day < other.day
        } else if self.hour != other.hour {
            self.hour < other.hour
        } else if self.minute != other.minute {
            self.minute < other.minute
        } else if self.second != other.second {
            self.second < other.second
        } else {
            self.nanosecond < other.nanosecond
        }
    }

    /// The date of `self` at the given time of day (chrono's `and_time`).
    pub open spec fn at_time(self, t: (u32, u32, u32, u32)) -> DateTime {
        DateTime {
            year: self.year,
            month: self.month,
            day: self.day,
            hour: t.0,
            minute: t.1,
            second: t.2,
            nanosecond: t.3,
        }
    }

    /// Whether `self` falls on the earliest date chrono represents.
    pub open spec fn on_first_date(self) -> bool {
        self.year == MIN_YEAR && self.month == 1 && self.day == 1
    }

    /// The same time of day one calendar day earlier.
    pub open spec fn day_before(self) -> DateTime {
        if self.day > 1 {
            DateTime { day: (self.day - 1) as u32, ..self }
        } else if self.month > 1 {
            DateTime {
                month: (self.month - 1) as u32,
                day: days_in_month(self.year as int, self.month - 1) as u32,
                ..self
            }
        } else {
            DateTime { year: (self.year - 1) as i32, month: 12, day: 31, ..self }
        }
    }

    /// The day before a date-time that chrono represents is one too.
    pub proof fn lemma_day_before_wf(self)
        requires
            self.wf(),
            !self.on_first_date(),
        ensures
            self.day_before().wf(),
    {
    }

    /// Builds a date-time from its fields; `None` when they do not form one
    /// (as chrono's `from_ymd_opt` and `and_hms_nano_opt` decide).
    pub fn new(
        year: i32,
        month: u32,
        day: u32,
        hour: u32,
        minute: u32,
        second: u32,
        nanosecond: u32,
    ) -> (res: Option<DateTime>)
        ensures
            res matches Some(dt) ==> dt.wf() && dt == (DateTime {
                year,
                month,
                day,
                hour,
                minute,
                second,
                nanosecond,
            }),
            res is None ==> !valid_date(year as int, month as int, day as int) || !valid_time(
                hour as int,
                minute as int,
                second as int,
                nanosecond as int,
            ),
    {
        if year < MIN_YEAR || year > MAX_YEAR || month < 1 || month > 12 || day < 1 {
            return None;
        }
        if day > days_in_month_exec(year, month) {
            return None;
        }
        if hour >= 24 || minute >= 60 || second >= 60 || nanosecond >= 2_000_000_000 || (
        nanosecond >= 1_000_000_000 && second != 59) {
            return None;
        }
        Some(DateTime { year, month, day, hour, minute, second, nanosecond })
    }

    /// Whether the two date-times fall on the same calendar day.
    pub fn same_date_exec(&self, other: &DateTime) -> (res: bool)
        ensures
            res == self.same_date(*other),
    {
        self.year == other.year && self.month == other.month && self.day == other.day
    }

    /// Whether `self` comes strictly before `other`.
    pub fn before_exec(&self, other: &DateTime) -> (res: bool)
        ensures
            res == self.before(*other),
    {
        if self.year != other.year {
            self.year < other.year
        } else if self.month != other.month {
            self.month < other.month
        } else if self.day != other.day {
            self.day < other.day
        } else if self.hour != other.hour {
            self.hour < other.hour
        } else if self.minute != other.minute {
            self.minute < other.minute
        } else if self.second != other.second {
            self.second < other.second
        } else {
            self.nanosecond < other.nanosecond
        }
    }
}

/// The number of days of a month.
#[verifier::spinoff_prover]
pub fn days_in_month_exec(year: i32, month: u32) -> (res: u32)
    requires
        1 <= month <= 12,
    ensures
        res == days_in_month(year as int, month as int),
{
    if month == 2 {
        if (year % 4 == 0 && year % 100 != 0) || year % 400 == 0 {
            29
        } else {
            28
        }
    } else if month == 4 || month == 6 || month == 9 || month == 11 {
        30
    } else {
        31
    }
}

// ---------------------------------------------------------------------
// Text forms
// ---------------------------------------------------------------------

/// The pattern `%H:%M`: hour and minute.
pub open spec fn clock_pattern() -> Seq<char> {
    seq!['%', 'H', ':', '%', 'M']
}

/// The pattern `%d/%m/%Y %H:%M`: the timestamp on a document's last line.
pub open spec fn timestamp_pattern() -> Seq<char> {
    seq!['%', 'd', '/', '%', 'm', '/', '%', 'Y', ' ', '%', 'H', ':', '%', 'M']
}

/// The pattern `%e %B`: day of month and month name.
pub open spec fn heading_pattern() -> Seq<char> {
    seq!['%', 'e', ' ', '%', 'B']
}

/// The pattern literals used in calls spell the patterns above.
pub proof fn lemma_pattern_literals()
    ensures
        "%H:%M"@ == clock_pattern(),
        "%d/%m/%Y %H:%M"@ == timestamp_pattern(),
        "%e %B"@ == heading_pattern(),
{
    reveal_strlit("%H:%M");
    reveal_strlit("%d/%m/%Y %H:%M");
    reveal_strlit("%e %B");
    assert("%H:%M"@ =~= clock_pattern());
    assert("%d/%m/%Y %H:%M"@ =~= timestamp_pattern());
    assert("%e %B"@ =~= heading_pattern());
}

/// Two decimal digits of `v < 100`.
pub open spec fn two_digits(v: int) -> Seq<char> {
    seq![digit_char(v / 10), digit_char(v % 10)]
}

/// `v < 100` right-aligned in two columns, padded with a space.
pub open spec fn space_two_digits(v: int) -> Seq<char> {
    if v < 10 {
        seq![' ', digit_char(v)]
    } else {
        two_digits(v)
    }
}

/// Four decimal digits of `v < 10000`.
pub open spec fn four_digits(v: int) -> Seq<char> {
    seq![digit_char(v / 1000), digit_char((v / 100) % 10), digit_char((v / 10) % 10), digit_char(v % 10)]
}

/// A natural number zero-padded to at least four digits.
pub open spec fn padded_four(v: nat) -> Seq<char> {
    if v < 10000 {
        four_digits(v as int)
    } else {
        nat_text(v)
    }
}

/// chrono's `%Y`: four digits for years 0 to 9999, otherwise a sign and
/// at least four digits.
pub open spec fn year_text(y: int) -> Seq<char> {
    if 0 <= y <= 9999 {
        four_digits(y)
    } else if y < 0 {
        seq!['-'] + padded_four((-y) as nat)
    } else {
        seq!['+'] + padded_four(y as nat)
    }
}

/// The English name of month `m`.
pub open spec fn month_name(m: int) -> Seq<char> {
    if m == 1 {
        seq!['J', 'a', 'n', 'u', 'a', 'r', 'y']
    } else if m == 2 {
        seq!['F', 'e', 'b', 'r', 'u', 'a', 'r', 'y']
    } else if m == 3 {
        seq!['M', 'a', 'r', 'c', 'h']
    } else if m == 4 {
        seq!['A', 'p', 'r', 'i', 'l']
    } else if m == 5 {
        seq!['M', 'a', 'y']
    } else if m == 6 {
        seq!['J', 'u', 'n', 'e']
    } else if m == 7 {
        seq!['J', 'u', 'l', 'y']
    } else if m == 8 {
        seq!['A', 'u', 'g', 'u', 's', 't']
    } else if m == 9 {
        seq!['S', 'e', 'p', 't', 'e', 'm', 'b', 'e', 'r']
    } else if m == 10 {
        seq!['O', 'c', 't', 'o', 'b', 'e', 'r']
    } else if m == 11 {
        seq!['N', 'o', 'v', 'e', 'm', 'b', 'e', 'r']
    } else {
        seq!['D', 'e', 'c', 'e', 'm', 'b', 'e', 'r']
    }
}

/// `dt` formatted with `%H:%M`, e.g. `09:05`.
pub open spec fn clock_text(dt: DateTime) -> Seq<char> {
    two_digits(dt.hour as int) + seq![':'] + two_digits(dt.minute as int)
}

/// `dt` formatted with `%d/%m/%Y %H:%M`, e.g. `02/01/2024 09:05`.
pub open spec fn timestamp_text(dt: DateTime) -> Seq<char> {
    two_digits(dt.day as int) + seq!['/'] + two_digits(dt.month as int) + seq!['/'] + year_text(
        dt.year as int,
    ) + seq![' '] + clock_text(dt)
}

/// `dt` formatted with `%e %B`, e.g. ` 2 January`.
pub open spec fn heading_text(dt: DateTime) -> Seq<char> {
    space_two_digits(dt.day as int) + seq![' '] + month_name(dt.month as int)
}

// ---------------------------------------------------------------------
// chrono
// ---------------------------------------------------------------------

/// What chrono's `NaiveDateTime::parse_from_str(text, pattern)` gives:
/// the date-time, or the text of the parse error.
pub uninterp spec fn parsed_datetime(text: Seq<char>, pattern: Seq<char>) -> Result<
    DateTime,
    Seq<char>,
>;

/// What chrono's `NaiveTime::parse_from_str(text, pattern)` gives, as
/// hour, minute, second and nanosecond; `None` on a parse error.
pub uninterp spec fn parsed_time(text: Seq<char>, pattern: Seq<char>) -> Option<
    (u32, u32, u32, u32),
>;

/// What chrono's `end.signed_duration_since(start)` gives, as its
/// `num_seconds()` and `subsec_nanos()`.
pub uninterp spec fn span_between(start: DateTime, end: DateTime) -> (i64, i32);

/// The days from a fixed origin to 1 January of year `y` in the proleptic
/// Gregorian calendar (`/` rounds down).
pub open spec fn days_before_year(y: int) -> int {
    365 * y + (y - 1) / 4 - (y - 1) / 100 + (y - 1) / 400
}

/// The days of year `y` before month `m`.
pub open spec fn days_before_month(y: int, m: int) -> int
    decreases m,
{
    if m <= 1 {
        0
    } else {
        days_before_month(y, m - 1) + days_in_month(y, m - 1)
    }
}

/// The number of a date's day, counted from a fixed origin.
pub open spec fn day_number(dt: DateTime) -> int {
    days_before_year(dt.year as int) + days_before_month(dt.year as int, dt.month as int)
        + dt.day
}

/// The seconds of a date-time since the start of its day.
pub open spec fn second_of_day(dt: DateTime) -> int {
    dt.hour * 3600 + dt.minute * 60 + dt.second
}

/// The exact span from `start` to `end` in nanoseconds, for date-times
/// that are not leap seconds.
pub open spec fn exact_span(start: DateTime, end: DateTime) -> int {
    ((day_number(end) - day_number(start)) * 86400 + second_of_day(end) - second_of_day(start))
        * 1_000_000_000 + end.nanosecond - start.nanosecond
}

/// The largest number of whole seconds in a chrono `TimeDelta`
/// (`i64::MAX` milliseconds).
pub open spec fn max_span_seconds() -> int {
    9_223_372_036_854_775
}

/// Whether `span` is whole seconds and nanoseconds as a chrono `TimeDelta`
/// reports them: within its range, with fewer than a second of nanoseconds
/// of the same sign as the seconds.
pub open spec fn span_fits(span: (i64, i32)) -> bool {
    &&& -max_span_seconds() <= span.0 <= max_span_seconds()
    &&& -1_000_000_000 < span.1 < 1_000_000_000
    &&& span.0 > 0 ==> span.1 >= 0
    &&& span.0 < 0 ==> span.1 <= 0
}

/// The length of a span in nanoseconds.
pub open spec fn span_nanos(span: (i64, i32)) -> int {
    span.0 * 1_000_000_000 + span.1
}

/// At minute precision: the seconds and nanoseconds dropped, as a
/// timestamp line holds a date-time.
pub open spec fn at_minute(dt: DateTime) -> DateTime {
    DateTime { second: 0, nanosecond: 0, ..dt }
}

/// How a timestamp line written for `dt` reads: `dt` at minute precision.
pub open spec fn minute_reading(dt: DateTime) -> Result<DateTime, Seq<char>> {
    Ok(at_minute(dt))
}

/// chrono's `NaiveDateTime::format(pattern)` turned into a string, for the
/// three patterns this library uses; taken on trust. The result is stated
/// as chrono's documentation and source give the specifiers: `%H`, `%M`, `%d`, `%m` two zero-padded digits, `%e` two
/// digits padded with a space, `%B` the English month name, `%Y` the year
/// as four digits (with a sign and more digits outside 0 to 9999).
/// Stated besides is what chrono's parser gives back of the text with the
/// same pattern: `%H:%M` reads back as the hour and minute (second and
/// nanosecond zero), and the timestamp as the date-time at minute
/// precision (`%Y` reads back a plain four-digit year, and a signed one of
/// any length).
#[verifier::external_body]
pub(crate) fn format_datetime(dt: &DateTime, pattern: &str) -> (res: String)
    requires
        dt.wf(),
        pattern@ == clock_pattern() || pattern@ == timestamp_pattern() || pattern@
            == heading_pattern(),
    ensures
        pattern@ == clock_pattern() ==> res@ == clock_text(*dt),
        pattern@ == timestamp_pattern() ==> res@ == timestamp_text(*dt),
        pattern@ == heading_pattern() ==> res@ == heading_text(*dt),
        pattern@ == clock_pattern() ==> parsed_time(res@, pattern@) == Some((dt.hour, dt.minute, 0u32, 0u32)),
        pattern@ == timestamp_pattern() ==> parsed_datetime(res@, pattern@) == minute_reading(*dt),
{
    let value: NaiveDateTime = NaiveDate::from_ymd_opt(dt.year, dt.month, dt.day).unwrap()
        .and_hms_nano_opt(dt.hour, dt.minute, dt.second, dt.nanosecond).unwrap();
    value.format(pattern).to_string()
}

/// chrono's `NaiveDateTime::parse_from_str(text, pattern)`, with the error
/// turned into its text; taken on trust. The result is named
/// (`parsed_datetime`), not stated: chrono's parser takes pages to describe.
/// What is stated besides is that a parsed value is a date-time chrono
/// represents and that, with the timestamp pattern (which holds no
/// seconds), its second and nanosecond are zero, as chrono fills them in,
/// and the text does not begin with `|` (the pattern begins with `%d`,
/// for which chrono skips white space and then reads digits).
#[verifier::external_body]
pub(crate) fn parse_datetime(text: &str, pattern: &str) -> (res: Result<DateTime, String>)
    ensures
        match res {
            Ok(dt) => parsed_datetime(text@, pattern@) == Ok::<DateTime, Seq<char>>(dt) && dt.wf()
                && (pattern@ == timestamp_pattern() ==> dt == at_minute(dt) && text@.len() > 0
                && text@[0] != '|'),
            Err(e) => parsed_datetime(text@, pattern@) == Err::<DateTime, Seq<char>>(e@),
        },
{
    match NaiveDateTime::parse_from_str(text, pattern) {
        Ok(v) => Ok(
            DateTime {
                year: v.year(),
                month: v.month(),
                day: v.day(),
                hour: v.hour(),
                minute: v.minute(),
                second: v.second(),
                nanosecond: v.nanosecond(),
            },
        ),
        Err(e) => Err(e.to_string()),
    }
}

/// chrono's `NaiveTime::parse_from_str(text, pattern).ok()`; taken on
/// trust. The result is named (`parsed_time`); stated besides are that a parsed value is a valid time of day and that,
/// with the pattern `%H:%M`, its second and nanosecond are zero (chrono
/// fills in zero for fields the pattern does not hold).
#[verifier::external_body]
pub(crate) fn parse_time(text: &str, pattern: &str) -> (res: Option<(u32, u32, u32, u32)>)
    ensures
        res == parsed_time(text@, pattern@),
        res matches Some(t) ==> valid_time(t.0 as int, t.1 as int, t.2 as int, t.3 as int),
        pattern@ == clock_pattern() ==> (res matches Some(t) ==> t.2 == 0 && t.3 == 0),
{
    match NaiveTime::parse_from_str(text, pattern) {
        Ok(t) => Some((t.hour(), t.minute(), t.second(), t.nanosecond())),
        Err(_) => None,
    }
}

/// chrono's `end.signed_duration_since(start)`, taken apart by its
/// `num_seconds()` and `subsec_nanos()`: the whole seconds from `start` to
/// `end` rounded toward zero, and the remaining nanoseconds, so that the
/// span is `seconds * 1_000_000_000 + nanoseconds`; taken on trust. The
/// value is named (`span_between`); stated besides are that it is zero
/// from a date-time to itself and that it lies within chrono's `TimeDelta`
/// range (`i64::MAX` milliseconds), with the nanoseconds below a second and
/// of the sign of the seconds, and that, when neither is a leap second, it
/// is the exact span: the difference of the day numbers in days plus the
/// difference of the times of day. With a leap second chrono counts it in
/// its own way (`NaiveTime::signed_duration_since`), which is left unsaid.
#[verifier::external_body]
pub(crate) fn span_from(start: &DateTime, end: &DateTime) -> (res: (i64, i32))
    requires
        start.wf(),
        end.wf(),
    ensures
        res == span_between(*start, *end),
        *start == *end ==> res == (0i64, 0i32),
        span_fits(res),
        start.nanosecond < 1_000_000_000 && end.nanosecond < 1_000_000_000 ==> span_nanos(res)
            == exact_span(*start, *end),
{
    let s: NaiveDateTime = NaiveDate::from_ymd_opt(start.year, start.month, start.day).unwrap()
        .and_hms_nano_opt(start.hour, start.minute, start.second, start.nanosecond).unwrap();
    let e: NaiveDateTime = NaiveDate::from_ymd_opt(end.year, end.month, end.day).unwrap()
        .and_hms_nano_opt(end.hour, end.minute, end.second, end.nanosecond).unwrap();
    let d = e.signed_duration_since(s);
    (d.num_seconds(), d.subsec_nanos())
}

/// chrono's `dt -= Duration::days(1)` on a time that is not a leap second,
/// taken on trust to give the same time of day on the previous calendar day.
/// chrono panics below its first date, which `requires` leaves out.
#[verifier::external_body]
pub(crate) fn minus_one_day(dt: &DateTime) -> (res: DateTime)
    requires
        dt.wf(),
        dt.nanosecond < 1_000_000_000,
        !dt.on_first_date(),
    ensures
        res == dt.day_before(),
{
    let mut v: NaiveDateTime = NaiveDate::from_ymd_opt(dt.year, dt.month, dt.day).unwrap()
        .and_hms_nano_opt(dt.hour, dt.minute, dt.second, dt.nanosecond).unwrap();
    v -= TimeDelta::days(1);
    DateTime {
        year: v.year(),
        month: v.month(),
        day: v.day(),
        hour: v.hour(),
        minute: v.minute(),
        second: v.second(),
        nanosecond: v.nanosecond(),
    }
}

} // verus!
