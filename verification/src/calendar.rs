//! The proleptic Gregorian calendar: which days exist, how they are counted,
//! and the conversions between a day's number and its date.

use chrono::Datelike;
use chrono::Timelike;
use vstd::prelude::*;
use vstd::string::*;

verus! {

/// The first year that a date can have.
pub const MIN_YEAR: i32 = -262143;

/// The last year that a date can have.
pub const MAX_YEAR: i32 = 262142;

/// Whether a year has a 29th of February.
pub open spec fn is_leap(year: int) -> bool {
    year % 4 == 0 && (year % 100 != 0 || year % 400 == 0)
}

/// How many days a month has.
pub open spec fn days_in_month(year: int, month: int) -> int {
    if month == 2 {
        if is_leap(year) {
            29
        } else {
            28
        }
    } else if month == 4 || month == 6 || month == 9 || month == 11 {
        30
    } else {
        31
    }
}

/// How many days a year has.
pub open spec fn days_in_year(year: int) -> int {
    if is_leap(year) {
        366
    } else {
        365
    }
}

/// Whether there is such a day: the year is in range, the month is one of
/// the twelve, and the month has that day.
pub open spec fn valid_date(year: int, month: int, day: int) -> bool {
    &&& MIN_YEAR <= year <= MAX_YEAR
    &&& 1 <= month <= 12
    &&& 1 <= day <= days_in_month(year, month)
}

/// How many days of the year lie before the first of a month.
pub open spec fn days_before_month(year: int, month: int) -> int
    decreases month,
{
    if month <= 1 {
        0
    } else {
        days_before_month(year, month - 1) + days_in_month(year, month - 1)
    }
}

/// How many days lie between the start of year 1 and the start of a year.
pub open spec fn days_before_year(year: int) -> int {
    365 * (year - 1) + (year - 1) / 4 - (year - 1) / 100 + (year - 1) / 400
}

/// The number of a day, counted so that the first of January of year 1 is
/// day 1.
pub open spec fn day_number(year: int, month: int, day: int) -> int {
    days_before_year(year) + days_before_month(year, month) + day
}

/// The day of the week of a day, from 1 for Monday to 7 for Sunday.
pub open spec fn weekday_number(days: int) -> int {
    (days - 1) % 7 + 1
}

/// The number of the first day that a date can be.
pub open spec fn first_day() -> int {
    day_number(MIN_YEAR as int, 1, 1)
}

/// The number of the last day that a date can be.
pub open spec fn last_day() -> int {
    day_number(MAX_YEAR as int, 12, 31)
}

/// A year is as long as the distance between its start and the next.
pub proof fn lemma_year_length(year: int)
    ensures
        days_before_year(year + 1) == days_before_year(year) + days_in_year(year),
{
    assert(year / 4 == (year - 1) / 4 + if year % 4 == 0 {
        1int
    } else {
        0int
    });
    assert(year / 100 == (year - 1) / 100 + if year % 100 == 0 {
        1int
    } else {
        0int
    });
    assert(year / 400 == (year - 1) / 400 + if year % 400 == 0 {
        1int
    } else {
        0int
    });
    assert(year % 100 == 0 ==> year % 4 == 0);
    assert(year % 400 == 0 ==> year % 100 == 0);
}

/// The days before each month of a year.
pub proof fn lemma_days_before_month(year: int)
    ensures
        days_before_month(year, 1) == 0,
        days_before_month(year, 2) == 31,
        days_before_month(year, 3) == 31 + days_in_month(year, 2),
        days_before_month(year, 4) == 62 + days_in_month(year, 2),
        days_before_month(year, 5) == 92 + days_in_month(year, 2),
        days_before_month(year, 6) == 123 + days_in_month(year, 2),
        days_before_month(year, 7) == 153 + days_in_month(year, 2),
        days_before_month(year, 8) == 184 + days_in_month(year, 2),
        days_before_month(year, 9) == 215 + days_in_month(year, 2),
        days_before_month(year, 10) == 245 + days_in_month(year, 2),
        days_before_month(year, 11) == 276 + days_in_month(year, 2),
        days_before_month(year, 12) == 306 + days_in_month(year, 2),
        days_before_month(year, 13) == days_in_year(year),
{
    reveal_with_fuel(days_before_month, 14);
}

/// A later year starts later.
pub proof fn lemma_years_ordered(a: int, b: int)
    requires
        a <= b,
    ensures
        days_before_year(a) + 365 * (b - a) <= days_before_year(b),
    decreases b - a,
{
    if a < b {
        lemma_years_ordered(a, b - 1);
        lemma_year_length(b - 1);
    }
}

/// A day of a year lies inside that year.
pub proof fn lemma_day_in_year(year: int, month: int, day: int)
    requires
        1 <= month <= 12,
        1 <= day <= days_in_month(year, month),
    ensures
        days_before_year(year) < day_number(year, month, day) <= days_before_year(year + 1),
        days_before_month(year, month) + days_in_month(year, month) == days_before_month(
            year,
            month + 1,
        ),
        0 <= days_before_month(year, month),
        days_before_month(year, month + 1) <= days_in_year(year),
{
    lemma_days_before_month(year);
    lemma_year_length(year);
}

/// Dates are numbered in their order: of two days, the one with the later
/// year, or in the same year the later month, or in the same month the later
/// day, has the greater number.
pub proof fn lemma_dates_ordered(y1: int, m1: int, d1: int, y2: int, m2: int, d2: int)
    requires
        1 <= m1 <= 12,
        1 <= d1 <= days_in_month(y1, m1),
        1 <= m2 <= 12,
        1 <= d2 <= days_in_month(y2, m2),
        y1 < y2 || (y1 == y2 && (m1 < m2 || (m1 == m2 && d1 <= d2))),
    ensures
        day_number(y1, m1, d1) <= day_number(y2, m2, d2),
        (y1 != y2 || m1 != m2 || d1 != d2) ==> day_number(y1, m1, d1) < day_number(y2, m2, d2),
{
    lemma_day_in_year(y1, m1, d1);
    lemma_day_in_year(y2, m2, d2);
    if y1 < y2 {
        lemma_years_ordered(y1 + 1, y2);
    } else if m1 < m2 {
        lemma_days_before_month(y1);
    }
}

/// No two dates have the same number.
pub proof fn lemma_date_unique(y1: int, m1: int, d1: int, y2: int, m2: int, d2: int)
    requires
        1 <= m1 <= 12,
        1 <= d1 <= days_in_month(y1, m1),
        1 <= m2 <= 12,
        1 <= d2 <= days_in_month(y2, m2),
        day_number(y1, m1, d1) == day_number(y2, m2, d2),
    ensures
        y1 == y2,
        m1 == m2,
        d1 == d2,
{
    if y1 < y2 || (y1 == y2 && (m1 < m2 || (m1 == m2 && d1 <= d2))) {
        lemma_dates_ordered(y1, m1, d1, y2, m2, d2);
    } else {
        lemma_dates_ordered(y2, m2, d2, y1, m1, d1);
    }
}

/// A day of the calendar: its date and its day of the week.
#[derive(Clone, Copy, Debug, PartialEq, Eq, Structural)]
pub struct Civil {
    pub year: i32,
    pub month: u32,
    pub day: u32,
    pub weekday: u32,
}

/// `chrono::NaiveDate::from_ymd_opt` makes a date if there is such a day in
/// the proleptic Gregorian calendar and its year is in range;
/// `num_days_from_ce` counts its days from the first of January of year 1,
/// which is day 1.
#[verifier::external_body]
pub(crate) fn days_from_civil(year: i32, month: u32, day: u32) -> (r: Option<i32>)
    ensures
        r is Some <==> valid_date(year as int, month as int, day as int),
        r is Some ==> r.unwrap() == day_number(year as int, month as int, day as int),
{
    match chrono::NaiveDate::from_ymd_opt(year, month, day) {
        Some(date) => Some(date.num_days_from_ce()),
        None => None,
    }
}

/// `chrono::NaiveDate::from_num_days_from_ce_opt` makes the date of the day
/// with the given number, if its year is in range; `year`, `month`, `day`
/// and `weekday` read it.
#[verifier::external_body]
pub(crate) fn civil_from_days(days: i32) -> (r: Option<Civil>)
    ensures
        r is Some <==> first_day() <= days <= last_day(),
        r is Some ==> ({
            let c = r.unwrap();
            &&& valid_date(c.year as int, c.month as int, c.day as int)
            &&& day_number(c.year as int, c.month as int, c.day as int) == days
            &&& c.weekday == weekday_number(days as int)
        }),
{
    match chrono::NaiveDate::from_num_days_from_ce_opt(days) {
        Some(date) => Some(
            Civil {
                year: date.year(),
                month: date.month(),
                day: date.day(),
                weekday: date.weekday().number_from_monday(),
            },
        ),
        None => None,
    }
}

/// What `chrono::NaiveTime::parse_from_str` reads from a text in a format:
/// the hour, the minute and the second, or nothing where the text does not
/// fit the format.
pub uninterp spec fn clock_of(text: Seq<char>, format: Seq<char>) -> Option<(u32, u32, u32)>;

/// `chrono::NaiveTime::parse_from_str` reads a time of day in the given
/// format; `hour`, `minute` and `second` read it, and stay below 24, 60 and
/// 60.
#[verifier::external_body]
pub(crate) fn parse_clock(text: &str, format: &str) -> (r: Option<(u32, u32, u32)>)
    ensures
        r == clock_of(text@, format@),
        r is Some ==> r.unwrap().0 < 24 && r.unwrap().1 < 60 && r.unwrap().2 < 60,
{
    match chrono::NaiveTime::parse_from_str(text, format) {
        Ok(time) => Some((time.hour(), time.minute(), time.second())),
        Err(_) => None,
    }
}

/// A text with its upper-case ASCII letters made lower-case.
pub open spec fn folded(text: Seq<u8>) -> Seq<u8> {
    text.map_values(
        |b: u8|
            if 0x41 <= b <= 0x5a {
                (b + 32) as u8
            } else {
                b
            },
    )
}

/// Whether a text is one of two names, whatever the case of its letters.
pub open spec fn is_named(text: Seq<u8>, short: &str, long: &str) -> bool {
    folded(text) == short.spec_bytes() || folded(text) == long.spec_bytes()
}

/// The day of the week that a text names, from 1 for Monday to 7 for Sunday.
/// A day is named by its English name or by the first three letters of it,
/// in any case.
pub open spec fn weekday_named(text: Seq<u8>) -> Option<u32> {
    if is_named(text, "mon", "monday") {
        Some(1)
    } else if is_named(text, "tue", "tuesday") {
        Some(2)
    } else if is_named(text, "wed", "wednesday") {
        Some(3)
    } else if is_named(text, "thu", "thursday") {
        Some(4)
    } else if is_named(text, "fri", "friday") {
        Some(5)
    } else if is_named(text, "sat", "saturday") {
        Some(6)
    } else if is_named(text, "sun", "sunday") {
        Some(7)
    } else {
        None
    }
}

/// The month that a text names, from 1 for January to 12 for December. A
/// month is named by its English name or by the first three letters of it,
/// in any case.
pub open spec fn month_named(text: Seq<u8>) -> Option<u32> {
    if is_named(text, "jan", "january") {
        Some(1)
    } else if is_named(text, "feb", "february") {
        Some(2)
    } else if is_named(text, "mar", "march") {
        Some(3)
    } else if is_named(text, "apr", "april") {
        Some(4)
    } else if is_named(text, "may", "may") {
        Some(5)
    } else if is_named(text, "jun", "june") {
        Some(6)
    } else if is_named(text, "jul", "july") {
        Some(7)
    } else if is_named(text, "aug", "august") {
        Some(8)
    } else if is_named(text, "sep", "september") {
        Some(9)
    } else if is_named(text, "oct", "october") {
        Some(10)
    } else if is_named(text, "nov", "november") {
        Some(11)
    } else if is_named(text, "dec", "december") {
        Some(12)
    } else {
        None
    }
}

/// `str::parse::<chrono::Weekday>` reads the name of a day of the week, long
/// or short, in any case; `number_from_monday` numbers it from Monday, 1.
#[verifier::external_body]
pub(crate) fn weekday_from_name(text: &str) -> (r: Option<u32>)
    ensures
        r == weekday_named(text.spec_bytes()),
{
    match text.parse::<chrono::Weekday>() {
        Ok(day) => Some(day.number_from_monday()),
        Err(_) => None,
    }
}

/// `str::parse::<chrono::Month>` reads the name of a month, long or short,
/// in any case; `number_from_month` numbers it from January, 1.
#[verifier::external_body]
pub(crate) fn month_from_name(text: &str) -> (r: Option<u32>)
    ensures
        r == month_named(text.spec_bytes()),
{
    match text.parse::<chrono::Month>() {
        Ok(month) => Some(month.number_from_month()),
        Err(_) => None,
    }
}

} // verus!
