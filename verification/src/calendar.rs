//! The calendar that the cup's days are counted in.
//!
//! A moment is a number of seconds since 1970-01-01 00:00:00 UTC, and a day is a date of the
//! proleptic Gregorian calendar in Pacific Standard Time. Calendar computations are chrono's.

use chrono::{DateTime, Datelike, FixedOffset, NaiveDate, TimeZone};
use vstd::prelude::*;

use crate::text;

verus! {

/// Seconds in a day.
pub const DAY_SECS: i64 = 86400;

/// The first year of chrono's calendar.
pub const MIN_YEAR: i32 = -262143;

/// The last year of chrono's calendar.
pub const MAX_YEAR: i32 = 262142;

/// The first second of chrono's calendar, in UTC.
pub const MIN_SECS: i64 = -8334601228800;

/// The last second of chrono's calendar, in UTC.
pub const MAX_SECS: i64 = 8210266876799;

/// Whether a year has a 29th of February.
pub open spec fn is_leap(year: int) -> bool {
    year % 4 == 0 && (year % 100 != 0 || year % 400 == 0)
}

/// The number of days of a month.
pub open spec fn month_length(year: int, month: int) -> int {
    if month == 2 {
        if is_leap(year) {
            29
        } else {
            28
        }
    } else if month == 4 || month == 6 || month == 9 || month == 11 {
        30
    } else {
        31
    }
}

/// The number of days of a year before the first of a month.
pub open spec fn days_before_month(year: int, month: int) -> int
    decreases month,
{
    if month <= 1 {
        0
    } else {
        days_before_month(year, month - 1) + month_length(year, month - 1)
    }
}

/// The number of days from 0001-01-01 to the first of January of a year.
pub open spec fn days_before_year(year: int) -> int {
    365 * (year - 1) + (year - 1) / 4 - (year - 1) / 100 + (year - 1) / 400
}

/// The number of days from 1970-01-01 to a date.
pub open spec fn day_number(year: int, month: int, day: int) -> int {
    days_before_year(year) + days_before_month(year, month) + day - 1 - 719162
}

/// Whether a date exists, within the years that chrono's calendar has.
pub open spec fn is_date(year: int, month: int, day: int) -> bool {
    &&& MIN_YEAR <= year <= MAX_YEAR
    &&& 1 <= month <= 12
    &&& 1 <= day <= month_length(year, month)
}

/// Whether a moment lies within chrono's calendar.
pub open spec fn in_calendar(secs: int) -> bool {
    MIN_SECS <= secs <= MAX_SECS
}

/// A year as it is written in a date: four digits, or a sign and at least four digits outside of
/// the years 0 to 9999.
pub open spec fn year_text(year: int) -> Seq<char> {
    if year < 0 {
        seq!['-'] + text::padded((-year) as nat, 4)
    } else if year > 9999 {
        seq!['+'] + text::padded(year as nat, 4)
    } else {
        text::padded(year as nat, 4)
    }
}

/// A date as it is written: year, month and day, separated by hyphens.
pub open spec fn date_text(year: int, month: int, day: int) -> Seq<char> {
    year_text(year) + seq!['-'] + text::padded(month as nat, 2) + seq!['-'] + text::padded(day as nat, 2)
}

/// The moment at which the clocks of the zone `west` seconds behind UTC show a date and a time of
/// day, if there is such a date and time and the moment lies within chrono's calendar.
pub open spec fn zone_moment(
    west: int,
    year: int,
    month: int,
    day: int,
    hour: int,
    min: int,
    sec: int,
) -> Option<int> {
    let utc = DAY_SECS * day_number(year, month, day) + 3600 * hour + 60 * min + sec + west;
    if is_date(year, month, day) && hour < 24 && min < 60 && sec < 60 && in_calendar(utc) {
        Some(utc)
    } else {
        None
    }
}

/// chrono's `TimeZone::with_ymd_and_hms`, for the `FixedOffset` zone whose clocks are `west` seconds
/// behind UTC, as a timestamp. It gives the moment at which those clocks show the given date and
/// time, and nothing where there is no such date or time or where the moment lies outside of
/// chrono's calendar.
#[verifier::external_body]
fn moment_of(west: i32, year: i32, month: u32, day: u32, hour: u32, min: u32, sec: u32) -> (res: Option<i64>)
    requires
        -DAY_SECS < west < DAY_SECS,
    ensures
        match res {
            Some(secs) => zone_moment(
                west as int,
                year as int,
                month as int,
                day as int,
                hour as int,
                min as int,
                sec as int,
            ) == Some(secs as int),
            None => zone_moment(
                west as int,
                year as int,
                month as int,
                day as int,
                hour as int,
                min as int,
                sec as int,
            ) is None,
        },
{
    let zone = FixedOffset::west_opt(west).unwrap();
    zone.with_ymd_and_hms(year, month, day, hour, min, sec).single().map(|moment| moment.timestamp())
}

/// chrono's `DateTime::with_timezone`, for the zone whose clocks are `west` seconds behind UTC, and
/// the date that `Datelike` reads off the result. It is the date that the zone's clocks show at the
/// given moment.
#[verifier::external_body]
fn local_date(west: i32, secs: i64) -> (res: (i32, u32, u32))
    requires
        -DAY_SECS < west < DAY_SECS,
        in_calendar(secs as int),
        in_calendar(secs - west),
    ensures
        is_date(res.0 as int, res.1 as int, res.2 as int),
        day_number(res.0 as int, res.1 as int, res.2 as int) == (secs - west) / (DAY_SECS as int),
{
    let zone = FixedOffset::west_opt(west).unwrap();
    let local = DateTime::from_timestamp(secs, 0).unwrap().with_timezone(&zone);
    (local.year(), local.month(), local.day())
}

/// chrono's `NaiveDate::format`, with the pattern `%Y-%m-%d`.
#[verifier::external_body]
fn format_date(year: i32, month: u32, day: u32, pattern: &str) -> (res: String)
    requires
        is_date(year as int, month as int, day as int),
        pattern@ == "%Y-%m-%d"@,
    ensures
        res@ == date_text(year as int, month as int, day as int),
{
    NaiveDate::from_ymd_opt(year, month, day).unwrap().format(pattern).to_string()
}

/// How far the clocks of Pacific Standard Time are behind UTC, in seconds.
pub const PST_WEST: i32 = 28800;

/// The day that Pacific clocks show at a moment, as its number of days since 1970-01-01.
pub open spec fn pst_day(secs: int) -> int {
    (secs - PST_WEST) / (DAY_SECS as int)
}

/// The moment at which a day begins in Pacific Standard Time.
pub open spec fn day_start(number: int) -> int {
    DAY_SECS * number + PST_WEST
}

/// Whether there is a date with the given number of days since 1970-01-01.
pub open spec fn is_day(number: int) -> bool {
    MIN_SECS / DAY_SECS <= number <= MAX_SECS / DAY_SECS
}

/// The date with the given number of days since 1970-01-01.
pub open spec fn date_of_day(number: int) -> (int, int, int) {
    choose|date: (int, int, int)|
        is_date(date.0, date.1, date.2) && #[trigger] day_number(date.0, date.1, date.2) == number
}

/// The date with the given number of days since 1970-01-01, as it is written.
pub open spec fn day_text(number: int) -> Seq<char> {
    let date = date_of_day(number);
    date_text(date.0, date.1, date.2)
}

proof fn lemma_year_step(year: int)
    ensures
        days_before_year(year + 1) == days_before_year(year) + (if is_leap(year) {
            366int
        } else {
            365
        }),
{
}

proof fn lemma_years_increase(a: int, b: int)
    requires
        a <= b,
    ensures
        days_before_year(a) + 365 * (b - a) <= days_before_year(b),
    decreases b - a,
{
    if a < b {
        lemma_years_increase(a, b - 1);
        lemma_year_step(b - 1);
    }
}

proof fn lemma_months_increase(year: int, a: int, b: int)
    requires
        1 <= a < b,
    ensures
        days_before_month(year, a) + month_length(year, a) <= days_before_month(year, b),
    decreases b - a,
{
    if a < b - 1 {
        lemma_months_increase(year, a, b - 1);
    }
}

proof fn lemma_months_fill_year(year: int)
    ensures
        days_before_month(year, 13) == (if is_leap(year) {
            366int
        } else {
            365
        }),
{
    reveal_with_fuel(days_before_month, 14);
}

proof fn lemma_date_within_year(year: int, month: int, day: int)
    requires
        is_date(year, month, day),
    ensures
        0 <= days_before_month(year, month) + day - 1,
        days_before_year(year) + days_before_month(year, month) + day - 1 < days_before_year(year + 1),
{
    lemma_year_step(year);
    lemma_months_fill_year(year);
    lemma_months_increase(year, month, 13);
    if month > 1 {
        lemma_months_increase(year, 1, month);
    }
}

proof fn lemma_dates_increase(y1: int, m1: int, d1: int, y2: int, m2: int, d2: int)
    requires
        is_date(y1, m1, d1),
        is_date(y2, m2, d2),
        y1 < y2 || (y1 == y2 && (m1 < m2 || (m1 == m2 && d1 < d2))),
    ensures
        day_number(y1, m1, d1) < day_number(y2, m2, d2),
{
    if y1 < y2 {
        lemma_date_within_year(y1, m1, d1);
        lemma_date_within_year(y2, m2, d2);
        lemma_years_increase(y1 + 1, y2);
    } else if m1 < m2 {
        lemma_months_increase(y1, m1, m2);
    }
}

/// Counting days agrees with reading dates: of two dates, the one with the smaller day number is
/// the one with the earlier year, or the earlier month of the same year, or the earlier day of the
/// same month.
pub proof fn day_numbers_follow_dates(y1: int, m1: int, d1: int, y2: int, m2: int, d2: int)
    requires
        is_date(y1, m1, d1),
        is_date(y2, m2, d2),
    ensures
        day_number(y1, m1, d1) < day_number(y2, m2, d2) <==> (y1 < y2 || (y1 == y2 && (m1 < m2 || (m1 == m2
            && d1 < d2)))),
        day_number(y1, m1, d1) == day_number(y2, m2, d2) <==> (y1 == y2 && m1 == m2 && d1 == d2),
{
    if y1 < y2 || (y1 == y2 && (m1 < m2 || (m1 == m2 && d1 < d2))) {
        lemma_dates_increase(y1, m1, d1, y2, m2, d2);
    } else if !(y1 == y2 && m1 == m2 && d1 == d2) {
        lemma_dates_increase(y2, m2, d2, y1, m1, d1);
    }
}

/// Dates have day numbers within the calendar.
pub proof fn lemma_bounds_of_dates(year: int, month: int, day: int)
    requires
        is_date(year, month, day),
    ensures
        is_day(day_number(year, month, day)),
{
    reveal_with_fuel(days_before_month, 13);
    day_numbers_follow_dates(MIN_YEAR as int, 1, 1, year, month, day);
    day_numbers_follow_dates(year, month, day, MAX_YEAR as int, 12, 31);
}

proof fn lemma_year_of_day(days: int, from: int) -> (year: int)
    requires
        from <= MAX_YEAR,
        days_before_year(from) <= days < days_before_year(MAX_YEAR + 1),
    ensures
        from <= year <= MAX_YEAR,
        days_before_year(year) <= days < days_before_year(year + 1),
    decreases MAX_YEAR - from,
{
    if days < days_before_year(from + 1) {
        from
    } else {
        lemma_year_of_day(days, from + 1)
    }
}

proof fn lemma_month_of_day(year: int, days: int, from: int) -> (month: int)
    requires
        1 <= from <= 12,
        days_before_month(year, from) <= days < days_before_month(year, 13),
    ensures
        from <= month <= 12,
        days_before_month(year, month) <= days < days_before_month(year, month + 1),
    decreases 12 - from,
{
    if days < days_before_month(year, from + 1) {
        from
    } else {
        lemma_month_of_day(year, days, from + 1)
    }
}

/// Every day within the calendar has a date, and `date_of_day` is that date: it is the only one
/// with that day number.
pub proof fn each_day_has_one_date(number: int)
    requires
        is_day(number),
    ensures
        is_date(date_of_day(number).0, date_of_day(number).1, date_of_day(number).2),
        day_number(date_of_day(number).0, date_of_day(number).1, date_of_day(number).2) == number,
        forall|year: int, month: int, day: int|
            is_date(year, month, day) && #[trigger] day_number(year, month, day) == number ==> date_of_day(
                number,
            ) == (year, month, day),
{
    let days = number + 719162;
    let year = lemma_year_of_day(days, MIN_YEAR as int);
    lemma_year_step(year);
    lemma_months_fill_year(year);
    let month = lemma_month_of_day(year, days - days_before_year(year), 1);
    let day = days - days_before_year(year) - days_before_month(year, month) + 1;
    let date = (year, month, day);
    assert(is_date(date.0, date.1, date.2) && day_number(date.0, date.1, date.2) == number);
    let found = date_of_day(number);
    assert forall|year: int, month: int, day: int|
        is_date(year, month, day) && #[trigger] day_number(year, month, day) == number implies found == (
        year,
        month,
        day,
    ) by {
        day_numbers_follow_dates(found.0, found.1, found.2, year, month, day);
    }
}

proof fn lemma_date_text_parts(year: int, month: int, day: int)
    requires
        is_date(year, month, day),
        0 <= year <= 9999,
    ensures
        date_text(year, month, day) == text::last_digits(year as nat, 4) + (seq!['-'] + (text::last_digits(
            month as nat,
            2,
        ) + (seq!['-'] + text::last_digits(day as nat, 2)))),
{
    text::lemma_padded_four(year as nat);
    text::lemma_padded_two(month as nat);
    text::lemma_padded_two(day as nat);
    assert(date_text(year, month, day) =~= text::last_digits(year as nat, 4) + (seq!['-'] + (
    text::last_digits(month as nat, 2) + (seq!['-'] + text::last_digits(day as nat, 2)))));
}

proof fn lemma_date_texts_increase(y1: int, m1: int, d1: int, y2: int, m2: int, d2: int)
    requires
        is_date(y1, m1, d1),
        is_date(y2, m2, d2),
        0 <= y1 <= 9999,
        0 <= y2 <= 9999,
        y1 < y2 || (y1 == y2 && (m1 < m2 || (m1 == m2 && d1 < d2))),
    ensures
        text::text_le(date_text(y1, m1, d1), date_text(y2, m2, d2)),
        !text::text_le(date_text(y2, m2, d2), date_text(y1, m1, d1)),
{
    assert(vstd::arithmetic::power::pow(10, 4) == 10000 && vstd::arithmetic::power::pow(10, 2) == 100) by {
        reveal_with_fuel(vstd::arithmetic::power::pow, 5);
    }
    lemma_date_text_parts(y1, m1, d1);
    lemma_date_text_parts(y2, m2, d2);
    let e = Seq::<char>::empty();
    let hyphen = seq!['-'];
    let year = text::last_digits(y1 as nat, 4);
    let dd1 = text::last_digits(d1 as nat, 2);
    let dd2 = text::last_digits(d2 as nat, 2);
    let mm1 = text::last_digits(m1 as nat, 2);
    let mm2 = text::last_digits(m2 as nat, 2);
    let rest1 = mm1 + (hyphen + dd1);
    let rest2 = mm2 + (hyphen + dd2);
    if y1 < y2 {
        text::lemma_digits_in_order(y1 as nat, y2 as nat, 4, hyphen + rest1, hyphen + rest2);
    } else {
        text::lemma_common_prefix(year, hyphen + rest1, hyphen + rest2);
        text::lemma_common_prefix(year, hyphen + rest2, hyphen + rest1);
        text::lemma_common_prefix(hyphen, rest1, rest2);
        text::lemma_common_prefix(hyphen, rest2, rest1);
        if m1 < m2 {
            text::lemma_digits_in_order(m1 as nat, m2 as nat, 2, hyphen + dd1, hyphen + dd2);
        } else {
            text::lemma_common_prefix(mm1, hyphen + dd1, hyphen + dd2);
            text::lemma_common_prefix(mm1, hyphen + dd2, hyphen + dd1);
            text::lemma_common_prefix(hyphen, dd1, dd2);
            text::lemma_common_prefix(hyphen, dd2, dd1);
            text::lemma_digits_in_order(d1 as nat, d2 as nat, 2, e, e);
            assert(dd1 + e =~= dd1);
            assert(dd2 + e =~= dd2);
        }
    }
}

/// Dates of the years 0 to 9999 stand in the same order as their texts, so that a list of dates in
/// the order of its texts is in the order of time.
pub proof fn date_texts_follow_dates(y1: int, m1: int, d1: int, y2: int, m2: int, d2: int)
    requires
        is_date(y1, m1, d1),
        is_date(y2, m2, d2),
        0 <= y1 <= 9999,
        0 <= y2 <= 9999,
    ensures
        text::text_le(date_text(y1, m1, d1), date_text(y2, m2, d2)) <==> day_number(y1, m1, d1) <= day_number(
            y2,
            m2,
            d2,
        ),
        date_text(y1, m1, d1) == date_text(y2, m2, d2) <==> day_number(y1, m1, d1) == day_number(y2, m2, d2),
{
    day_numbers_follow_dates(y1, m1, d1, y2, m2, d2);
    text::text_order_is_total();
    assert(text::text_order()(date_text(y1, m1, d1), date_text(y1, m1, d1)));
    if y1 < y2 || (y1 == y2 && (m1 < m2 || (m1 == m2 && d1 < d2))) {
        lemma_date_texts_increase(y1, m1, d1, y2, m2, d2);
    } else if !(y1 == y2 && m1 == m2 && d1 == d2) {
        lemma_date_texts_increase(y2, m2, d2, y1, m1, d1);
    }
}

/// Whether a day lies in the years 0 to 9999.
pub open spec fn has_plain_year(number: int) -> bool {
    day_number(0, 1, 1) <= number <= day_number(9999, 12, 31)
}

/// Days of the years 0 to 9999 stand in the same order as the texts of their dates.
pub proof fn day_texts_follow_days(a: int, b: int)
    requires
        has_plain_year(a),
        has_plain_year(b),
    ensures
        text::text_le(day_text(a), day_text(b)) <==> a <= b,
        day_text(a) == day_text(b) <==> a == b,
{
    lemma_bounds_of_dates(0, 1, 1);
    lemma_bounds_of_dates(9999, 12, 31);
    each_day_has_one_date(a);
    each_day_has_one_date(b);
    let (y1, m1, d1) = date_of_day(a);
    let (y2, m2, d2) = date_of_day(b);
    day_numbers_follow_dates(y1, m1, d1, 0, 1, 1);
    day_numbers_follow_dates(9999, 12, 31, y1, m1, d1);
    day_numbers_follow_dates(y2, m2, d2, 0, 1, 1);
    day_numbers_follow_dates(9999, 12, 31, y2, m2, d2);
    date_texts_follow_dates(y1, m1, d1, y2, m2, d2);
}

/// A moment, to the nanosecond.
#[derive(Clone, Copy, Debug, PartialEq, Eq, Structural)]
pub struct Timestamp {
    /// Whole seconds since 1970-01-01 00:00:00 UTC.
    pub secs: i64,
    /// Nanoseconds since the last whole second.
    pub nanos: u32,
}

/// Nanoseconds in a second.
pub const SEC_NANOS: i128 = 1000000000;

/// Nanoseconds in a day.
pub const DAY_NANOS: i128 = 86400000000000;

impl Timestamp {
    /// Whether the moment lies within chrono's calendar and has a proper nanosecond part.
    pub open spec fn wf(self) -> bool {
        in_calendar(self.secs as int) && self.nanos < SEC_NANOS
    }

    /// Nanoseconds since 1970-01-01 00:00:00 UTC.
    pub open spec fn total_nanos(self) -> int {
        self.secs * SEC_NANOS + self.nanos
    }

    /// Tells whether the moment lies within chrono's calendar and has a proper nanosecond part.
    pub fn is_wf(&self) -> (res: bool)
        ensures
            res == self.wf(),
    {
        MIN_SECS <= self.secs && self.secs <= MAX_SECS && (self.nanos as i128) < SEC_NANOS
    }

    /// The moment with the given seconds and nanoseconds, if it is one of chrono's calendar.
    pub fn new(secs: i64, nanos: u32) -> (res: Option<Timestamp>)
        ensures
            match res {
                Some(moment) => moment.secs == secs && moment.nanos == nanos && moment.wf(),
                None => !in_calendar(secs as int) || nanos >= SEC_NANOS,
            },
    {
        let moment = Timestamp { secs, nanos };
        if moment.is_wf() {
            Some(moment)
        } else {
            None
        }
    }

    /// The number of whole days from another moment to this one, negative where this moment is the
    /// earlier one. A part of a day that is left over is dropped.
    pub fn whole_days_since(&self, earlier: &Timestamp) -> (res: i64)
        requires
            self.wf(),
            earlier.wf(),
        ensures
            res == whole_days_between(earlier.total_nanos(), self.total_nanos()),
    {
        let from: i128 = earlier.secs as i128 * SEC_NANOS + earlier.nanos as i128;
        let to: i128 = self.secs as i128 * SEC_NANOS + self.nanos as i128;
        if from <= to {
            ((to - from) / DAY_NANOS) as i64
        } else {
            -(((from - to) / DAY_NANOS) as i64)
        }
    }
}

/// The number of whole days between two moments in nanoseconds, negative where the second moment is
/// the earlier one.
pub open spec fn whole_days_between(from: int, to: int) -> int {
    if from <= to {
        (to - from) / (DAY_NANOS as int)
    } else {
        -((from - to) / (DAY_NANOS as int))
    }
}

/// A date of the calendar.
#[derive(Clone, Copy, Debug, PartialEq, Eq, Structural)]
pub struct CalendarDate {
    pub year: i32,
    pub month: u32,
    pub day: u32,
}

impl CalendarDate {
    /// Whether there is such a date.
    pub open spec fn wf(self) -> bool {
        is_date(self.year as int, self.month as int, self.day as int)
    }

    /// The number of days from 1970-01-01 to this date.
    pub open spec fn number(self) -> int {
        day_number(self.year as int, self.month as int, self.day as int)
    }

    /// The date, as it is written.
    pub open spec fn text(self) -> Seq<char> {
        date_text(self.year as int, self.month as int, self.day as int)
    }

    /// The date that Pacific clocks show at a moment.
    pub fn in_pst(secs: i64) -> (res: CalendarDate)
        requires
            in_calendar(secs as int),
            in_calendar(secs - PST_WEST),
        ensures
            res.wf(),
            res.number() == pst_day(secs as int),
            res.text() == day_text(pst_day(secs as int)),
    {
        let (year, month, day) = local_date(get_pst(), secs);
        let res = CalendarDate { year, month, day };
        proof {
            each_day_has_one_date(pst_day(secs as int));
        }
        res
    }

    /// Writes the date as `YYYY-MM-DD`.
    pub fn to_text(&self) -> (res: String)
        requires
            self.wf(),
        ensures
            res@ == self.text(),
    {
        format_date(self.year, self.month, self.day, "%Y-%m-%d")
    }
}

/// How far Pacific Standard Time is behind UTC, in seconds: eight hours.
pub fn get_pst() -> (west: i32)
    ensures
        west == PST_WEST,
{
    8 * 3600
}

/// The moment at which a date begins in Pacific Standard Time, if there is such a date.
pub fn pst_midnight(year: i32, month: u32, day: u32) -> (res: Option<i64>)
    ensures
        res is Some <==> is_date(year as int, month as int, day as int),
        res matches Some(secs) ==> secs == day_start(day_number(year as int, month as int, day as int))
            && in_calendar(secs as int) && in_calendar(secs - PST_WEST),
{
    proof {
        if is_date(year as int, month as int, day as int) {
            lemma_bounds_of_dates(year as int, month as int, day as int);
        }
    }
    moment_of(get_pst(), year, month, day, 0, 0, 0)
}

/// Writes the date that Pacific clocks show at a moment.
pub fn pst_date_text(secs: i64) -> (res: String)
    requires
        in_calendar(secs as int),
        in_calendar(secs - PST_WEST),
    ensures
        res@ == day_text(pst_day(secs as int)),
{
    CalendarDate::in_pst(secs).to_text()
}

/// Pacific days are 86400 seconds long and begin eight hours after those of UTC: a moment lies in the
/// day that clocks eight hours behind UTC show, and a day begins when they show midnight.
pub proof fn pacific_days_begin_at_eight(secs: int, number: int)
    ensures
        pst_day(secs) == (secs - 28800) / 86400,
        86400 * pst_day(secs) + 28800 <= secs < 86400 * (pst_day(secs) + 1) + 28800,
        pst_day(secs + 86400) == pst_day(secs) + 1,
        day_start(number) == 86400 * number + 28800,
        pst_day(day_start(number)) == number,
        pst_day(day_start(number) - 1) == number - 1,
{
}

/// The whole days from one moment to another, in nanoseconds, are as many days as fit in between;
/// they are counted backwards where the second moment is the earlier one.
pub proof fn whole_days_fit_in_between(from: int, to: int)
    ensures
        from <= to ==> 86400000000000 * whole_days_between(from, to) <= to - from < 86400000000000 * (
        whole_days_between(from, to) + 1),
        whole_days_between(to, from) == -whole_days_between(from, to),
{
}

/// The moments of the calendar, and the nanoseconds that they are counted in.
pub proof fn moments_of_the_calendar(moment: Timestamp, number: int)
    ensures
        moment.wf() <==> -8334601228800 <= moment.secs <= 8210266876799 && moment.nanos < 1000000000,
        moment.total_nanos() == moment.secs * 1000000000 + moment.nanos,
        is_day(number) <==> -8334601228800 <= 86400 * number <= 8210266876799,
        in_calendar(number) <==> -8334601228800 <= number <= 8210266876799,
{
}

/// A date exists where its month has such a day: the months have 31 and 30 days as usual, and
/// February has 29 days in the years that are divisible by four, but not in those that are divisible
/// by a hundred and not by four hundred.
pub proof fn dates_that_exist(year: int, month: int, day: int)
    ensures
        is_date(year, month, day) <==> {
            &&& -262143 <= year <= 262142
            &&& 1 <= month <= 12
            &&& 1 <= day <= 31
            &&& day == 31 ==> month != 2 && month != 4 && month != 6 && month != 9 && month != 11
            &&& day == 30 ==> month != 2
            &&& day == 29 && month == 2 ==> year % 400 == 0 || (year % 4 == 0 && year % 100 != 0)
        },
{
}

/// Days are counted from 1970-01-01, one by one: each date is followed by the next day of its month,
/// the last day of a month by the first of the next month, and the last day of a year by the first
/// of January.
pub proof fn days_are_counted_one_by_one(year: int, month: int, day: int)
    ensures
        day_number(1970, 1, 1) == 0,
        day_number(year, month, day + 1) == day_number(year, month, day) + 1,
        1 <= month < 12 && is_date(year, month, day) && !is_date(year, month, day + 1) ==> day_number(
            year,
            month + 1,
            1,
        ) == day_number(year, month, day) + 1,
        day_number(year + 1, 1, 1) == day_number(year, 12, 31) + 1,
{
    reveal_with_fuel(days_before_month, 2);
    lemma_year_step(year);
    lemma_months_fill_year(year);
}

/// A date is written as its year, its month and its day, with a hyphen between them. Month and day
/// have two digits. The year has four digits; outside of the years 0 to 9999 it has a sign and at
/// least four digits.
pub proof fn date_text_shows_the_date(year: int, month: int, day: int)
    requires
        is_date(year, month, day),
    ensures
        ({
            let shown = date_text(year, month, day);
            let n = shown.len();
            let first = shown.take(n - 6);
            &&& n >= 10
            &&& shown[n - 3] == '-'
            &&& shown[n - 6] == '-'
            &&& text::read_number(shown.subrange(n - 2, n as int)) == day
            &&& text::read_number(shown.subrange(n - 5, n - 3)) == month
            &&& 0 <= year <= 9999 ==> n == 10 && text::read_number(first) == year
            &&& year > 9999 ==> first[0] == '+' && text::read_number(first.skip(1)) == year && n >= 11
            &&& year < 0 ==> first[0] == '-' && text::read_number(first.skip(1)) == -year && n >= 11
            &&& forall|i: int|
                0 <= i < n && i != n - 3 && i != n - 6 && (i > 0 || 0 <= year <= 9999) ==> '0' <= #[trigger] shown[i]
                    <= '9'
        }),
{
    let shown = date_text(year, month, day);
    let n = shown.len();
    let y = year_text(year);
    let m = text::padded(month as nat, 2);
    let d = text::padded(day as nat, 2);
    let size: nat = if year < 0 {
        (-year) as nat
    } else {
        year as nat
    };
    let digits = text::padded(size, 4);
    text::padded_stands_for_the_number(month as nat, 2);
    text::padded_stands_for_the_number(day as nat, 2);
    text::padded_stands_for_the_number(size, 4);
    text::lemma_padded_two(month as nat);
    text::lemma_padded_two(day as nat);
    reveal_with_fuel(text::last_digits, 5);
    assert(m.len() == 2 && d.len() == 2);
    assert(shown.subrange(n - 2, n as int) =~= d);
    assert(shown.subrange(n - 5, n - 3) =~= m);
    assert(shown.take(n - 6) =~= y);
    if 0 <= year <= 9999 {
        text::lemma_padded_four(size);
        assert(y.len() == 4);
        assert(forall|i: int| 0 <= i < y.len() ==> shown[i] == digits[i]);
    } else {
        assert(y.skip(1) =~= digits);
        assert(forall|i: int| 1 <= i < y.len() ==> shown[i] == digits[i - 1]);
    }
    assert(shown[n - 1] == d[1] && shown[n - 2] == d[0] && shown[n - 4] == m[1] && shown[n - 5] == m[0]);
}

/// A day is written as the date that has its number.
pub proof fn day_text_is_that_of_its_date(year: int, month: int, day: int)
    requires
        is_date(year, month, day),
    ensures
        day_text(day_number(year, month, day)) == date_text(year, month, day),
        date_of_day(day_number(year, month, day)) == (year, month, day),
{
    lemma_bounds_of_dates(year, month, day);
    each_day_has_one_date(day_number(year, month, day));
}

/// A date stands for its year, its month and its day.
pub proof fn calendar_date_shows_the_date(date: CalendarDate)
    ensures
        date.wf() <==> is_date(date.year as int, date.month as int, date.day as int),
        date.number() == day_number(date.year as int, date.month as int, date.day as int),
        date.text() == date_text(date.year as int, date.month as int, date.day as int),
{
}

} // verus!
