//! Dates and durations. A date is a moment together with a resolution, and
//! stands for the span of time that starts at the moment and lasts one unit
//! of the resolution: `2001-02-03` is the whole of that day.

use crate::calendar::{
    civil_from_days, day_number, days_before_year, days_from_civil, days_in_month, days_in_year,
    first_day, lemma_date_unique, lemma_dates_ordered, lemma_day_in_year, lemma_days_before_month,
    lemma_year_length, lemma_years_ordered, valid_date, MAX_YEAR, MIN_YEAR,
};
use crate::calendar::{
    clock_of, month_from_name, month_named, parse_clock, weekday_from_name, weekday_named,
};
use crate::field::{number_of, parse_unsigned};
use crate::text::{
    decimal, is_digit, padded, parse_signed, push_ascii, push_padded, signed_of, str_eq,
};
use vstd::prelude::*;
use vstd::slice::slice_subrange;
use vstd::string::*;
use vstd::utf8::*;

verus! {

/// A length of time in one of six units. As the resolution of a date it
/// names the unit; the number then plays no part.
#[derive(Clone, Copy, Debug, PartialEq, Eq, Structural)]
pub enum Duration {
    Seconds(i64),
    Minutes(i64),
    Hours(i64),
    Days(i64),
    Months(i64),
    Years(i32),
}

/// A moment, to the second, and the resolution with which it was given.
#[derive(Clone, Copy, Debug, PartialEq, Eq, Structural)]
pub struct Date {
    year: i32,
    month: u32,
    day: u32,
    days: i32,
    secs: u32,
    duration: Duration,
}

/// The seconds of a day.
pub const DAY: i64 = 86400;

/// The date of the day with a given number.
pub closed spec fn civil_of(days: int) -> (int, int, int) {
    choose|y: int, m: int, d: int| #[trigger] valid_date(y, m, d) && day_number(y, m, d) == days
}

/// The day of a month that a day number falls back to where the month is
/// too short for it.
pub open spec fn clamped_day(year: int, month: int, day: int) -> int {
    if day <= days_in_month(year, month) {
        day
    } else {
        days_in_month(year, month)
    }
}

/// The year and month that lie `n` months after a month.
pub open spec fn month_after(year: int, month: int, n: int) -> (int, int) {
    let count = year * 12 + (month - 1) + n;
    (count / 12, count % 12 + 1)
}

/// `civil_of` undoes `day_number`.
pub proof fn lemma_civil_of(year: int, month: int, day: int)
    requires
        valid_date(year, month, day),
    ensures
        civil_of(day_number(year, month, day)) == (year, month, day),
{
    let c = civil_of(day_number(year, month, day));
    assert(valid_date(year, month, day));
    lemma_date_unique(c.0, c.1, c.2, year, month, day);
}

impl Date {
    #[verifier::type_invariant]
    spec fn holds_always(self) -> bool {
        self.well_formed()
    }

    /// What holds of every date: its day exists, lies before the last year
    /// of the calendar, and is numbered as the calendar numbers it.
    pub closed spec fn well_formed(self) -> bool {
        &&& valid_date(self.year as int, self.month as int, self.day as int)
        &&& self.year < MAX_YEAR
        &&& self.days == day_number(self.year as int, self.month as int, self.day as int)
        &&& self.secs < 86400
    }

    /// The year.
    pub closed spec fn year(self) -> int {
        self.year as int
    }

    /// The month, from 1 to 12.
    pub closed spec fn month(self) -> int {
        self.month as int
    }

    /// The day of the month, from 1 on.
    pub closed spec fn day(self) -> int {
        self.day as int
    }

    /// The seconds since midnight.
    pub closed spec fn clock(self) -> int {
        self.secs as int
    }

    /// The resolution.
    pub closed spec fn resolution(self) -> Duration {
        self.duration
    }

    /// The moment, in seconds: 86400 for each day up to this one, counted
    /// from the first of January of year 1 as day 1, and the seconds since
    /// midnight.
    pub open spec fn instant(self) -> int {
        day_number(self.year(), self.month(), self.day()) * 86400 + self.clock()
    }

    /// The date with these fields.
    pub closed spec fn built(
        year: int,
        month: int,
        day: int,
        clock: int,
        duration: Duration,
    ) -> Date {
        Date {
            year: year as i32,
            month: month as u32,
            day: day as u32,
            days: day_number(year, month, day) as i32,
            secs: clock as u32,
            duration,
        }
    }

    /// The date made from its fields, if they name a moment that exists.
    pub open spec fn of_fields(
        year: int,
        month: int,
        day: int,
        hour: int,
        minute: int,
        second: int,
        duration: Duration,
    ) -> Option<Date> {
        if valid_date(year, month, day) && year < MAX_YEAR && 0 <= hour < 24 && 0 <= minute < 60
            && 0 <= second < 60 {
            Some(Date::built(year, month, day, hour * 3600 + minute * 60 + second, duration))
        } else {
            None
        }
    }

    /// The date that lies `delta` seconds later, if the calendar reaches
    /// that far.
    pub closed spec fn shifted(self, delta: int) -> Option<Date> {
        let total = self.instant() + delta;
        let days = total / 86400;
        if first_day() <= days < days_before_year(MAX_YEAR as int) + 1 {
            let c = civil_of(days);
            Some(Date::built(c.0, c.1, c.2, total % 86400, self.duration))
        } else {
            None
        }
    }

    /// The date that lies `n` months later: the same day of the month, or
    /// the last day of a month that is too short.
    pub closed spec fn months_later(self, n: int) -> Option<Date> {
        let (year, month) = month_after(self.year(), self.month(), n);
        if MIN_YEAR <= year < MAX_YEAR {
            Some(
                Date::built(
                    year,
                    month,
                    clamped_day(year, month, self.day()),
                    self.clock(),
                    self.duration,
                ),
            )
        } else {
            None
        }
    }

    /// The date that lies `n` years later: the same day of the year, or the
    /// 28th of February for a 29th that the year does not have.
    pub closed spec fn years_later(self, n: int) -> Option<Date> {
        let year = self.year() + n;
        if MIN_YEAR <= year < MAX_YEAR {
            Some(
                Date::built(
                    year,
                    self.month(),
                    clamped_day(year, self.month(), self.day()),
                    self.clock(),
                    self.duration,
                ),
            )
        } else {
            None
        }
    }

    /// The date that lies a duration later. Seconds, minutes, hours and days
    /// are added as so many seconds; months and years go by the calendar.
    /// The resolution stays.
    pub open spec fn later(self, by: Duration) -> Option<Date> {
        match by {
            Duration::Seconds(n) => self.shifted(n as int),
            Duration::Minutes(n) => self.shifted(n * 60),
            Duration::Hours(n) => self.shifted(n * 3600),
            Duration::Days(n) => self.shifted(n * 86400),
            Duration::Months(n) => self.months_later(n as int),
            Duration::Years(n) => self.years_later(n as int),
        }
    }

    /// The moment at which the span of the date ends: one unit of its
    /// resolution after its start.
    pub closed spec fn span_end(self) -> int {
        match self.duration {
            Duration::Seconds(_) => self.instant() + 1,
            Duration::Minutes(_) => self.instant() + 60,
            Duration::Hours(_) => self.instant() + 3600,
            Duration::Days(_) => self.instant() + 86400,
            Duration::Months(_) => {
                let (year, month) = month_after(self.year(), self.month(), 1);
                day_number(year, month, clamped_day(year, month, self.day())) * 86400
                    + self.clock()
            },
            Duration::Years(_) => day_number(
                self.year() + 1,
                self.month(),
                clamped_day(self.year() + 1, self.month(), self.day()),
            ) * 86400 + self.clock(),
        }
    }

    /// Whether the span of this date lies inside the span of the other.
    pub open spec fn is_within(self, other: Date) -> bool {
        other.instant() <= self.instant() && other.span_end() >= self.span_end()
    }

    /// Whether the span of this date ends before the other's starts.
    pub open spec fn is_before(self, other: Date) -> bool {
        self.span_end() <= other.instant()
    }

    /// Whether the span of this date starts after the other's has ended.
    pub open spec fn is_after(self, other: Date) -> bool {
        other.span_end() <= self.instant()
    }

    /// The same moment with another resolution.
    pub closed spec fn with_resolution(self, duration: Duration) -> Date {
        Date { duration, ..self }
    }

    /// The start of the day of this date, with another resolution.
    pub closed spec fn midnight(self, duration: Duration) -> Date {
        Date { secs: 0, duration, ..self }
    }

    /// The day of the week, from 1 for Monday to 7 for Sunday.
    pub closed spec fn weekday(self) -> int {
        (self.days - 1) % 7 + 1
    }

    /// Makes a date from its fields. There is none where the day does not
    /// exist, the time of day does not, or the year is out of range.
    pub fn from_fields(
        year: i32,
        month: u32,
        day: u32,
        hour: u32,
        minute: u32,
        second: u32,
        duration: Duration,
    ) -> (r: Option<Date>)
        ensures
            r == Date::of_fields(
                year as int,
                month as int,
                day as int,
                hour as int,
                minute as int,
                second as int,
                duration,
            ),
    {
        if hour >= 24 || minute >= 60 || second >= 60 || year >= MAX_YEAR {
            return None;
        }
        match days_from_civil(year, month, day) {
            Some(days) => Some(
                Date { year, month, day, days, secs: hour * 3600 + minute * 60 + second, duration },
            ),
            None => None,
        }
    }

    /// The date `delta` seconds later, with the same resolution.
    fn shift(&self, delta: i128) -> (r: Option<Date>)
        requires
            -0x10_0000_0000_0000_0000_0000_0000 <= delta <= 0x10_0000_0000_0000_0000_0000_0000,
        ensures
            r == self.shifted(delta as int),
            r is Some ==> r.unwrap().well_formed(),
    {
        proof {
            use_type_invariant(self);
            lemma_day_in_year(self.year as int, self.month as int, self.day as int);
            lemma_years_ordered(MIN_YEAR as int, self.year as int);
            lemma_years_ordered(self.year as int + 1, MAX_YEAR as int);
        }
        let total: i128 = (self.days as i128) * 86400 + (self.secs as i128) + delta;
        let (days, secs): (i128, i128) = if total >= 0 {
            (total / 86400, total % 86400)
        } else {
            let q: i128 = (-total + 86399) / 86400;
            (-q, total + q * 86400)
        };
        assert(days == (total as int) / 86400 && secs == (total as int) % 86400);
        if days < -95746129 || days > 95745034 {
            return None;
        }
        assert(first_day() == -95746129) by {
            lemma_days_before_month(MIN_YEAR as int);
        }
        match civil_from_days(days as i32) {
            Some(c) => {
                proof {
                    lemma_days_before_month(MAX_YEAR as int);
                    lemma_day_in_year(c.year as int, c.month as int, c.day as int);
                    if c.year >= MAX_YEAR {
                        lemma_years_ordered(MAX_YEAR as int, c.year as int);
                    }
                    lemma_civil_of(c.year as int, c.month as int, c.day as int);
                }
                Some(
                    Date {
                        year: c.year,
                        month: c.month,
                        day: c.day,
                        days: days as i32,
                        secs: secs as u32,
                        duration: self.duration,
                    },
                )
            },
            None => {
                proof {
                    lemma_days_before_month(MAX_YEAR as int);
                    lemma_year_length(MAX_YEAR as int);
                }
                None
            },
        }
    }

    /// The number of the day `day` of a month, or of the last day of the
    /// month where it is shorter.
    fn day_in_month(year: i32, month: u32, day: u32) -> (r: (u32, i32))
        requires
            MIN_YEAR <= year <= MAX_YEAR,
            1 <= month <= 12,
            1 <= day <= 31,
        ensures
            r.0 == clamped_day(year as int, month as int, day as int),
            r.1 == day_number(year as int, month as int, r.0 as int),
            valid_date(year as int, month as int, r.0 as int),
    {
        let mut back: u32 = 0;
        while back < 3
            invariant
                back <= 3,
                1 <= day <= 31,
                MIN_YEAR <= year <= MAX_YEAR,
                1 <= month <= 12,
                back > 0 ==> day - back + 1 > days_in_month(year as int, month as int),
            decreases 3 - back,
        {
            if day > back {
                if let Some(days) = days_from_civil(year, month, day - back) {
                    return (day - back, days);
                }
            }
            back += 1;
        }
        (day - back, days_from_civil(year, month, day - back).unwrap())
    }

    /// The date that lies a duration later. There is none where the calendar
    /// does not reach that far.
    pub fn plus(&self, by: &Duration) -> (r: Option<Date>)
        ensures
            r == self.later(*by),
    {
        proof {
            use_type_invariant(self);
        }
        match *by {
            Duration::Seconds(n) => self.shift(n as i128),
            Duration::Minutes(n) => self.shift((n as i128) * 60),
            Duration::Hours(n) => self.shift((n as i128) * 3600),
            Duration::Days(n) => self.shift((n as i128) * 86400),
            Duration::Months(n) => {
                let count: i128 = (self.year as i128) * 12 + (self.month as i128 - 1) + (n as i128);
                let (year, month0): (i128, i128) = if count >= 0 {
                    (count / 12, count % 12)
                } else {
                    let q: i128 = (-count + 11) / 12;
                    (-q, count + q * 12)
                };
                assert(year == (count as int) / 12 && month0 == (count as int) % 12);
                if year < MIN_YEAR as i128 || year >= MAX_YEAR as i128 {
                    return None;
                }
                let month: u32 = (month0 + 1) as u32;
                let (day, days) = Date::day_in_month(year as i32, month, self.day);
                Some(
                    Date {
                        year: year as i32,
                        month,
                        day,
                        days,
                        secs: self.secs,
                        duration: self.duration,
                    },
                )
            },
            Duration::Years(n) => {
                let year: i64 = self.year as i64 + n as i64;
                if year < MIN_YEAR as i64 || year >= MAX_YEAR as i64 {
                    return None;
                }
                let (day, days) = match days_from_civil(year as i32, self.month, self.day) {
                    Some(days) => (self.day, days),
                    None => Date::day_in_month(year as i32, 2, 28),
                };
                Some(
                    Date {
                        year: year as i32,
                        month: if day == self.day {
                            self.month
                        } else {
                            2
                        },
                        day,
                        days,
                        secs: self.secs,
                        duration: self.duration,
                    },
                )
            },
        }
    }

    /// The moment at which the span of the date ends.
    fn end(&self) -> (r: i64)
        ensures
            r == self.span_end(),
            -0x1000_0000_0000 < self.instant() < 0x1000_0000_0000,
            -0x1000_0000_0000 < r < 0x1000_0000_0000,
    {
        proof {
            use_type_invariant(self);
            lemma_day_in_year(self.year as int, self.month as int, self.day as int);
            lemma_years_ordered(MIN_YEAR as int, self.year as int);
            lemma_years_ordered(self.year as int + 1, MAX_YEAR as int);
        }
        let start: i64 = (self.days as i64) * DAY + self.secs as i64;
        match self.duration {
            Duration::Seconds(_) => start + 1,
            Duration::Minutes(_) => start + 60,
            Duration::Hours(_) => start + 3600,
            Duration::Days(_) => start + DAY,
            Duration::Months(_) => {
                let (year, month): (i32, u32) = if self.month == 12 {
                    (self.year + 1, 1)
                } else {
                    (self.year, self.month + 1)
                };
                let (day, days) = Date::day_in_month(year, month, self.day);
                proof {
                    lemma_day_in_year(year as int, month as int, day as int);
                    lemma_years_ordered(MIN_YEAR as int, year as int);
                    lemma_years_ordered(year as int + 1, MAX_YEAR as int + 1);
                }
                (days as i64) * DAY + self.secs as i64
            },
            Duration::Years(_) => {
                let (day, days) = Date::day_in_month(self.year + 1, self.month, self.day);
                proof {
                    lemma_day_in_year(self.year as int + 1, self.month as int, day as int);
                    lemma_years_ordered(MIN_YEAR as int, self.year as int + 1);
                    lemma_years_ordered(self.year as int + 2, MAX_YEAR as int + 1);
                }
                (days as i64) * DAY + self.secs as i64
            },
        }
    }

    fn start(&self) -> (r: i64)
        ensures
            r == self.instant(),
    {
        proof {
            use_type_invariant(self);
            lemma_day_in_year(self.year as int, self.month as int, self.day as int);
            lemma_years_ordered(MIN_YEAR as int, self.year as int);
            lemma_years_ordered(self.year as int + 1, MAX_YEAR as int);
        }
        (self.days as i64) * DAY + self.secs as i64
    }

    /// Whether the span of this date lies inside the span of the other.
    pub fn within(&self, other: &Date) -> (r: bool)
        ensures
            r == self.is_within(*other),
    {
        other.start() <= self.start() && other.end() >= self.end()
    }

    /// Whether the span of this date ends before the span of the other
    /// starts.
    pub fn before(&self, other: &Date) -> (r: bool)
        ensures
            r == self.is_before(*other),
    {
        self.end() <= other.start()
    }

    /// Whether the span of this date starts after the span of the other has
    /// ended.
    pub fn after(&self, other: &Date) -> (r: bool)
        ensures
            r == self.is_after(*other),
    {
        other.end() <= self.start()
    }
}

/// How fine a resolution is: 0 for years, up to 5 for seconds.
pub open spec fn fineness(resolution: Duration) -> int {
    match resolution {
        Duration::Years(_) => 0,
        Duration::Months(_) => 1,
        Duration::Days(_) => 2,
        Duration::Hours(_) => 3,
        Duration::Minutes(_) => 4,
        Duration::Seconds(_) => 5,
    }
}

/// A year in at least four characters, a `-` in front of a negative one
/// counting as one of them.
pub open spec fn year_text(year: int) -> Seq<u8> {
    if year < 0 {
        seq![0x2du8] + padded((-year) as nat, 3)
    } else {
        padded(year as nat, 4)
    }
}

/// A field of two digits behind its separator, if the resolution is fine
/// enough to show it.
pub open spec fn part(shown: bool, separator: u8, value: int) -> Seq<u8> {
    if shown {
        seq![separator] + padded(value as nat, 2)
    } else {
        Seq::empty()
    }
}

/// The separator that an absolute date has at a position, if it has one
/// there: `YYYY-MM-DDTHH:MM:SS`.
pub open spec fn separator_at(i: int) -> Option<u8> {
    if i == 4 || i == 7 {
        Some(0x2du8)
    } else if i == 10 {
        Some(0x54u8)
        } else if i == 13 || i == 16 {
        Some(0x3au8)
    } else {
        None
    }
}

/// The shape of an absolute date: `YYYY`, and after it as many of `-MM`,
/// `-DD`, `THH`, `:MM`, `:SS` as are given, each with exactly its digits.
pub open spec fn abs_shape(s: Seq<u8>) -> bool {
    &&& (s.len() == 4 || s.len() == 7 || s.len() == 10 || s.len() == 13 || s.len() == 16
        || s.len() == 19)
    &&& forall|i: int|
        0 <= i < s.len() ==> match separator_at(i) {
            Some(c) => #[trigger] s[i] == c,
            None => is_digit(s[i]),
        }
}

/// The field that starts at `at`, or `default` where the text ends before.
pub open spec fn field_at(s: Seq<u8>, at: int, width: int, default: int) -> int {
    if at + width <= s.len() {
        decimal(s.subrange(at, at + width)) as int
    } else {
        default
    }
}

/// The resolution of an absolute date of a given length: that of the last
/// field it has.
pub open spec fn resolution_of(len: int) -> Duration {
    if len <= 4 {
        Duration::Years(1)
    } else if len <= 7 {
        Duration::Months(1)
    } else if len <= 10 {
        Duration::Days(1)
    } else if len <= 13 {
        Duration::Hours(1)
    } else if len <= 16 {
        Duration::Minutes(1)
    } else {
        Duration::Seconds(1)
    }
}

/// The date that an absolute date text writes, if it has the shape of one
/// and its fields name a moment that exists.
pub open spec fn abs_of(s: Seq<u8>) -> Option<Date> {
    if abs_shape(s) {
        Date::of_fields(
            field_at(s, 0, 4, 0),
            field_at(s, 5, 2, 1),
            field_at(s, 8, 2, 1),
            field_at(s, 11, 2, 0),
            field_at(s, 14, 2, 0),
            field_at(s, 17, 2, 0),
            resolution_of(s.len() as int),
        )
    } else {
        None
    }
}

/// Division that rounds toward zero.
pub open spec fn quotient(a: int, b: int) -> int {
    if a >= 0 {
        a / b
    } else {
        -((-a) / b)
    }
}

/// How many days it takes to go `steps` days of work forward (or backward)
/// from a day of the week, passing over Saturdays and Sundays.
///
/// The steps that lead up to the first weekend on the way are taken apart
/// by a table for each day of the week; of the rest, every five are a week.
pub open spec fn workdays(steps: int, weekday: int) -> int {
    let (rest, first): (int, int) = if weekday == 7 {
        if steps < 0 {
            (steps + 1, -2)
        } else if steps == 0 {
            (steps, 0)
        } else {
            (steps - 1, 1)
        }
    } else if weekday == 1 {
        if steps < 0 {
            (steps + 1, -3)
        } else {
            (steps, 0)
        }
    } else if weekday == 2 {
        if steps <= -2 {
            (steps + 2, -4)
        } else if steps <= 3 {
            (steps, 0)
        } else {
            (steps - 4, 6)
        }
    } else if weekday == 3 {
        if steps <= -3 {
            (steps + 3, -5)
        } else if steps <= 2 {
            (steps, 0)
        } else {
            (steps - 3, 5)
        }
    } else if weekday == 4 {
        if steps <= -4 {
            (steps + 4, -6)
        } else if steps <= 1 {
            (steps, 0)
        } else {
            (steps - 2, 4)
        }
    } else if weekday == 5 {
        if steps <= -5 {
            (steps + 5, -7)
        } else if steps <= 0 {
            (steps, 0)
        } else {
            (steps - 1, 3)
        }
    } else {
        if steps <= -6 {
            (steps + 6, -8)
        } else if steps == -5 {
            (steps + 5, -5)
        } else if steps <= 0 {
            (steps, 0)
        } else {
            (steps - 1, 2)
        }
    };
    quotient(rest, 5) * 7 + (rest - quotient(rest, 5) * 5) + first
}

/// The day of the month that an ordinal names: a number from 1 to 31 with
/// one of the endings `st`, `nd`, `rd`, `th`.
pub open spec fn ordinal_of(s: Seq<u8>) -> Option<int> {
    let n = s.len() as int;
    if n >= 2 && ((s[n - 2] == 0x73 && s[n - 1] == 0x74) || (s[n - 2] == 0x6e && s[n - 1] == 0x64)
        || (s[n - 2] == 0x72 && s[n - 1] == 0x64) || (s[n - 2] == 0x74 && s[n - 1] == 0x68)) {
        match signed_of(s.subrange(0, n - 2), i64::MIN as int, i64::MAX as int) {
            Some(day) => if 1 <= day <= 31 {
                Some(day)
            } else {
                None
            },
            None => None,
        }
    } else {
        None
    }
}

/// How many months after a month the next day `n` of a month lies, seen
/// from a day of that month: none if the day is yet to come in the month,
/// one if the next month has such a day, and two if it has not.
pub open spec fn months_until(year: int, month: int, day: int, n: int) -> int {
    if day < n <= days_in_month(year, month) {
        0
    } else if n <= days_in_month(month_after(year, month, 1).0, month_after(year, month, 1).1) {
        1
    } else {
        2
    }
}

/// The first of two results that is one.
pub open spec fn or(a: Option<Date>, b: Option<Date>) -> Option<Date> {
    if a is Some {
        a
    } else {
        b
    }
}

impl Date {
    /// The date as text, as far as its resolution goes:
    /// `YYYY-MM-DDTHH:MM:SS`.
    pub closed spec fn text(self) -> Seq<u8> {
        let f = fineness(self.duration);
        year_text(self.year as int) + part(f >= 1, 0x2d, self.month as int) + part(
            f >= 2,
            0x2d,
            self.day as int,
        ) + part(f >= 3, 0x54, self.secs as int / 3600) + part(
            f >= 4,
            0x3a,
            self.secs as int / 60 % 60,
        ) + part(f >= 5, 0x3a, self.secs as int % 60)
    }

    /// The next moment, at or after this one, at which the time of day is
    /// `target` seconds after midnight.
    pub closed spec fn next_at(self, target: int) -> Option<Date> {
        if target >= self.secs {
            self.shifted(target - self.secs)
        } else {
            self.shifted(target - self.secs + 86400)
        }
    }

    /// `HH:MM:SS`: the next time the clock shows it.
    pub open spec fn rel_hms(s: Seq<u8>, cf: Date) -> Option<Date> {
        match clock_of(decode_utf8(s), "%H:%M:%S"@) {
            Some(t) => cf.with_resolution(Duration::Seconds(1)).next_at(
                t.0 * 3600 + t.1 * 60 + t.2,
            ),
            None => None,
        }
    }

    /// `HH:MM`: the next time the clock shows it.
    pub open spec fn rel_hm(s: Seq<u8>, cf: Date) -> Option<Date> {
        match clock_of(decode_utf8(s), "%H:%M"@) {
            Some(t) => cf.with_resolution(Duration::Minutes(1)).next_at(
                t.0 * 3600 + t.1 * 60 + t.2,
            ),
            None => None,
        }
    }

    /// A bare hour: the next time the clock shows it.
    pub open spec fn rel_hour(s: Seq<u8>, cf: Date) -> Option<Date> {
        match number_of(s, u32::MAX as nat) {
            Some(hour) => if hour < 24 {
                cf.with_resolution(Duration::Hours(1)).next_at(hour as int * 3600)
            } else {
                None
            },
            None => None,
        }
    }

    /// The name of a day of the week: the next such day after today.
    pub open spec fn rel_weekday(s: Seq<u8>, cf: Date) -> Option<Date> {
        match weekday_named(s) {
            Some(target) => {
                let wait = if target > cf.weekday() {
                    target - cf.weekday()
                } else {
                    7 + target - cf.weekday()
                };
                cf.midnight(Duration::Days(1)).shifted(wait * 86400)
            },
            None => None,
        }
    }

    /// An ordinal day of the month: the next day after today that is that
    /// day of its month.
    pub open spec fn rel_day_of_month(s: Seq<u8>, cf: Date) -> Option<Date> {
        match ordinal_of(s) {
            Some(target) => cf.next_day_of_month(target),
            None => None,
        }
    }

    /// The next day after this one that is day `n` of its month, as a date
    /// of day resolution: in this month if the day is yet to come, or else
    /// in the first of the months that follow which has such a day. There is
    /// none where the calendar does not reach that far.
    pub closed spec fn next_day_of_month(self, n: int) -> Option<Date> {
        let (year, month) = month_after(
            self.year(),
            self.month(),
            months_until(self.year(), self.month(), self.day(), n),
        );
        if year < MAX_YEAR {
            Some(Date::built(year, month, n, 0, Duration::Days(1)))
        } else {
            None
        }
    }

    /// The name of a month: the next such month after this one.
    pub open spec fn rel_month(s: Seq<u8>, cf: Date) -> Option<Date> {
        match month_named(s) {
            Some(target) => {
                let base = cf.first_of_month();
                if target > cf.month() {
                    base.months_later(target - cf.month())
                } else if base.years_later(1) is Some {
                    base.years_later(1).unwrap().months_later(target - cf.month())
                } else {
                    None
                }
            },
            None => None,
        }
    }

    /// The start of the month of this date, as a date of month resolution.
    pub closed spec fn first_of_month(self) -> Date {
        Date::built(self.year as int, self.month as int, 1, 0, Duration::Months(1))
    }

    /// A signed number with a unit behind it: so much later, or earlier.
    /// `s`, `m`, `h`, `d`, `w`, `M` and `y` are seconds, minutes, hours,
    /// days, weeks, months and years; `W` is days of work.
    pub open spec fn rel_offset(s: Seq<u8>, cf: Date) -> Option<Date> {
        if s.len() == 0 {
            None
        } else {
            let unit = s.last();
            let number = s.drop_last();
            let wide = signed_of(number, i64::MIN as int, i64::MAX as int);
            let narrow = signed_of(number, i32::MIN as int, i32::MAX as int);
            if unit == 0x79 {
                match narrow {
                    Some(n) => cf.years_later(n),
                    None => None,
                }
            } else {
                match wide {
                    Some(n) => if unit == 0x73 {
                        cf.shifted(n)
                    } else if unit == 0x6d {
                        cf.shifted(n * 60)
                    } else if unit == 0x68 {
                        cf.shifted(n * 3600)
                    } else if unit == 0x64 {
                        cf.shifted(n * 86400)
                    } else if unit == 0x57 {
                        cf.shifted(workdays(n, cf.weekday()) * 86400)
                    } else if unit == 0x77 {
                        cf.shifted(n * 7 * 86400)
                    } else if unit == 0x4d {
                        cf.months_later(n)
                    } else {
                        None
                    },
                    None => None,
                }
            }
        }
    }

    /// `today`, `tomorrow` or `tom`, `yesterday` or `yes`: that day. `now`:
    /// the reference itself.
    pub open spec fn rel_named(s: Seq<u8>, cf: Date) -> Option<Date> {
        if s == "today".spec_bytes() {
            cf.midnight(Duration::Days(1)).shifted(0)
        } else if s == "tomorrow".spec_bytes() || s == "tom".spec_bytes() {
            cf.midnight(Duration::Days(1)).shifted(86400)
        } else if s == "yesterday".spec_bytes() || s == "yes".spec_bytes() {
            cf.midnight(Duration::Days(1)).shifted(-86400)
        } else if s == "now".spec_bytes() {
            Some(cf)
        } else {
            None
        }
    }

    /// The date that a relative date text means when read at `cf`: the
    /// first of the eight forms that fits.
    pub open spec fn rel_of(s: Seq<u8>, cf: Date) -> Option<Date> {
        or(
            Date::rel_hms(s, cf),
            or(
                Date::rel_hm(s, cf),
                or(
                    Date::rel_hour(s, cf),
                    or(
                        Date::rel_weekday(s, cf),
                        or(
                            Date::rel_day_of_month(s, cf),
                            or(
                                Date::rel_month(s, cf),
                                or(Date::rel_offset(s, cf), Date::rel_named(s, cf)),
                            ),
                        ),
                    ),
                ),
            ),
        )
    }

    /// The date that a text means when read at `cf`: an absolute date, or
    /// else a relative one.
    pub open spec fn date_of(s: Seq<u8>, cf: Date) -> Option<Date> {
        or(abs_of(s), Date::rel_of(s, cf))
    }

    /// The date as text, as far as its resolution goes.
    pub fn to_string(&self) -> (r: String)
        ensures
            encode_utf8(r@) == self.text(),
    {
        proof {
            use_type_invariant(self);
        }
        let mut out = String::new();
        assert(encode_utf8(out@) =~= Seq::<u8>::empty());
        if self.year < 0 {
            push_ascii(&mut out, 0x2d);
            push_padded(&mut out, (-(self.year as i64)) as u64, 3);
        } else {
            push_padded(&mut out, self.year as u64, 4);
        }
        assert(encode_utf8(out@) =~= year_text(self.year as int));
        let f: u8 = match self.duration {
            Duration::Years(_) => 0,
            Duration::Months(_) => 1,
            Duration::Days(_) => 2,
            Duration::Hours(_) => 3,
            Duration::Minutes(_) => 4,
            Duration::Seconds(_) => 5,
        };
        Date::push_part(&mut out, f >= 1, 0x2d, self.month);
        Date::push_part(&mut out, f >= 2, 0x2d, self.day);
        Date::push_part(&mut out, f >= 3, 0x54, self.secs / 3600);
        Date::push_part(&mut out, f >= 4, 0x3a, self.secs / 60 % 60);
        Date::push_part(&mut out, f >= 5, 0x3a, self.secs % 60);
        out
    }

    fn push_part(out: &mut String, shown: bool, separator: u8, value: u32)
        requires
            separator < 0x80,
        ensures
            encode_utf8(final(out)@) == encode_utf8(old(out)@) + part(
                shown,
                separator,
                value as int,
            ),
    {
        if shown {
            push_ascii(out, separator);
            push_padded(out, value as u64, 2);
            assert(encode_utf8(out@) =~= encode_utf8(old(out)@) + part(
                shown,
                separator,
                value as int,
            ));
        } else {
            assert(encode_utf8(out@) =~= encode_utf8(old(out)@) + part(
                shown,
                separator,
                value as int,
            ));
        }
    }

    /// The same moment with another resolution.
    pub fn with_unit(&self, duration: Duration) -> (r: Date)
        ensures
            r == self.with_resolution(duration),
    {
        proof {
            use_type_invariant(self);
        }
        Date {
            year: self.year,
            month: self.month,
            day: self.day,
            days: self.days,
            secs: self.secs,
            duration,
        }
    }

    /// The start of the day of this date, with another resolution.
    fn at_midnight(&self, duration: Duration) -> (r: Date)
        ensures
            r == self.midnight(duration),
    {
        proof {
            use_type_invariant(self);
        }
        Date {
            year: self.year,
            month: self.month,
            day: self.day,
            days: self.days,
            secs: 0,
            duration,
        }
    }

    /// The day of the week, from 1 for Monday to 7 for Sunday.
    fn day_of_week(&self) -> (r: u32)
        ensures
            r == self.weekday(),
            1 <= r <= 7,
    {
        proof {
            use_type_invariant(self);
            lemma_day_in_year(self.year as int, self.month as int, self.day as int);
            lemma_years_ordered(MIN_YEAR as int, self.year as int);
            lemma_years_ordered(self.year as int + 1, MAX_YEAR as int);
            lemma_days_before_month(MIN_YEAR as int);
            lemma_days_before_month(MAX_YEAR as int);
        }
        civil_from_days(self.days).unwrap().weekday
    }

    /// The next moment, at or after this one, at which the clock shows the
    /// given time. There is none for a time that no clock shows.
    pub fn next_time(&self, hour: u32, minute: u32, second: u32) -> (r: Option<Date>)
        ensures
            r == if hour < 24 && minute < 60 && second < 60 {
                self.next_at(hour * 3600 + minute * 60 + second)
            } else {
                None
            },
    {
        proof {
            use_type_invariant(self);
        }
        if hour >= 24 || minute >= 60 || second >= 60 {
            return None;
        }
        let target: i128 = (hour * 3600 + minute * 60 + second) as i128;
        let now: i128 = self.secs as i128;
        if target >= now {
            self.shift(target - now)
        } else {
            self.shift(target - now + 86400)
        }
    }

    /// Reads an absolute date, `YYYY[-MM[-DD[THH[:MM[:SS]]]]]`.
    pub fn from_abs(str: &str) -> (r: Option<Date>)
        ensures
            r == abs_of(str.spec_bytes()),
    {
        let s = str.as_bytes();
        let n: usize = s.len();
        if !(n == 4 || n == 7 || n == 10 || n == 13 || n == 16 || n == 19) {
            return None;
        }
        let mut i: usize = 0;
        while i < n
            invariant
                i <= n,
                n == s@.len(),
                s@ == str.spec_bytes(),
                forall|j: int|
                    0 <= j < i ==> match separator_at(j) {
                        Some(c) => #[trigger] s@[j] == c,
                        None => is_digit(s@[j]),
                    },
            decreases n - i,
        {
            let b: u8 = s[i];
            let fits: bool = if i == 4 || i == 7 {
                b == 0x2d
            } else if i == 10 {
                b == 0x54
            } else if i == 13 || i == 16 {
                b == 0x3a
            } else {
                0x30 <= b && b <= 0x39
            };
            if !fits {
                assert(match separator_at(i as int) {
                    Some(c) => s@[i as int] != c,
                    None => !is_digit(s@[i as int]),
                });
                return None;
            }
            i += 1;
        }
        assert(abs_shape(s@));
        let year: u32 = Date::read_field(s, 0, 4, 0);
        let month: u32 = Date::read_field(s, 5, 2, 1);
        let day: u32 = Date::read_field(s, 8, 2, 1);
        let hour: u32 = Date::read_field(s, 11, 2, 0);
        let minute: u32 = Date::read_field(s, 14, 2, 0);
        let second: u32 = Date::read_field(s, 17, 2, 0);
        let duration = if n == 4 {
            Duration::Years(1)
        } else if n == 7 {
            Duration::Months(1)
        } else if n == 10 {
            Duration::Days(1)
        } else if n == 13 {
            Duration::Hours(1)
        } else if n == 16 {
            Duration::Minutes(1)
        } else {
            Duration::Seconds(1)
        };
        Date::from_fields(year as i32, month, day, hour, minute, second, duration)
    }

    fn read_field(s: &[u8], at: usize, width: usize, default: u32) -> (r: u32)
        requires
            abs_shape(s@),
            width == 2 || (width == 4 && at == 0),
            at == 0 || at == 5 || at == 8 || at == 11 || at == 14 || at == 17,
        ensures
            r == field_at(s@, at as int, width as int, default as int),
            r == default || r < 10000,
    {
        if at + width > s.len() {
            return default;
        }
        let ghost field = s@.subrange(at as int, at + width);
        let mut acc: u32 = 0;
        let mut i: usize = 0;
        while i < width
            invariant
                i <= width <= 4,
                at + width <= s@.len(),
                abs_shape(s@),
                width == 2 || (width == 4 && at == 0),
                at == 0 || at == 5 || at == 8 || at == 11 || at == 14 || at == 17,
                field == s@.subrange(at as int, at + width),
                acc == decimal(field.subrange(0, i as int)),
                i == 0 ==> acc == 0,
                i == 1 ==> acc <= 9,
                i == 2 ==> acc <= 99,
                i == 3 ==> acc <= 999,
                i == 4 ==> acc <= 9999,
            decreases width - i,
        {
            let b: u8 = s[at + i];
            proof {
                assert(separator_at(at + i) is None);
                assert(is_digit(s@[at + i]));
                let longer = field.subrange(0, i + 1);
                assert(longer.drop_last() =~= field.subrange(0, i as int));
                assert(longer.last() == b);
            }
            acc = acc * 10 + (b - 0x30) as u32;
            i += 1;
        }
        assert(field.subrange(0, i as int) =~= field);
        acc
    }

    /// Reads a relative date at `cf`.
    pub fn from_rel(str: &str, cf: &Date) -> (r: Option<Date>)
        ensures
            r == Date::rel_of(str.spec_bytes(), *cf),
    {
        if let Some(date) = Date::from_relative_hms(str, cf) {
            return Some(date);
        }
        if let Some(date) = Date::from_relative_hm(str, cf) {
            return Some(date);
        }
        if let Some(date) = Date::from_relative_hour(str, cf) {
            return Some(date);
        }
        if let Some(date) = Date::from_relative_weekday(str, cf) {
            return Some(date);
        }
        if let Some(date) = Date::from_relative_day_of_month(str, cf) {
            return Some(date);
        }
        if let Some(date) = Date::from_relative_month(str, cf) {
            return Some(date);
        }
        if let Some(date) = Date::from_relative_offset(str, cf) {
            return Some(date);
        }
        Date::from_relative_named(str, cf)
    }

    /// Reads a date at `cf`: an absolute date, or else a relative one.
    pub fn new(str: &str, cf: &Date) -> (r: Option<Date>)
        ensures
            r == Date::date_of(str.spec_bytes(), *cf),
    {
        match Date::from_abs(str) {
            Some(date) => Some(date),
            None => Date::from_rel(str, cf),
        }
    }

    /// Reads `HH:MM:SS` as the next time the clock shows it.
    pub fn from_relative_hms(str: &str, cf: &Date) -> (r: Option<Date>)
        ensures
            r == Date::rel_hms(str.spec_bytes(), *cf),
    {
        broadcast use encode_utf8_decode_utf8;

        match parse_clock(str, "%H:%M:%S") {
            Some((hour, minute, second)) => cf.with_unit(Duration::Seconds(1)).next_time(
                hour,
                minute,
                second,
            ),
            None => None,
        }
    }

    /// Reads `HH:MM` as the next time the clock shows it.
    pub fn from_relative_hm(str: &str, cf: &Date) -> (r: Option<Date>)
        ensures
            r == Date::rel_hm(str.spec_bytes(), *cf),
    {
        broadcast use encode_utf8_decode_utf8;

        match parse_clock(str, "%H:%M") {
            Some((hour, minute, second)) => cf.with_unit(Duration::Minutes(1)).next_time(
                hour,
                minute,
                second,
            ),
            None => None,
        }
    }

    /// Reads a bare hour as the next time the clock shows it.
    pub fn from_relative_hour(str: &str, cf: &Date) -> (r: Option<Date>)
        ensures
            r == Date::rel_hour(str.spec_bytes(), *cf),
    {
        match parse_unsigned(str.as_bytes(), u32::MAX as u64) {
            Some(hour) => cf.with_unit(Duration::Hours(1)).next_time(hour as u32, 0, 0),
            None => None,
        }
    }

    /// Reads the name of a day of the week as the next such day.
    pub fn from_relative_weekday(str: &str, cf: &Date) -> (r: Option<Date>)
        ensures
            r == Date::rel_weekday(str.spec_bytes(), *cf),
    {
        match weekday_from_name(str) {
            Some(target) => {
                let current: u32 = cf.day_of_week();
                let wait: i128 = if target > current {
                    target as i128 - current as i128
                } else {
                    7 + target as i128 - current as i128
                };
                cf.at_midnight(Duration::Days(1)).shift(wait * 86400)
            },
            None => None,
        }
    }

    /// Reads an ordinal, `1st` to `31st`, as the next such day of a month
    /// after the day of `cf`.
    pub fn from_relative_day_of_month(str: &str, cf: &Date) -> (r: Option<Date>)
        ensures
            r == Date::rel_day_of_month(str.spec_bytes(), *cf),
            r is Some ==> is_next_day_of_month(
                *cf,
                ordinal_of(str.spec_bytes()).unwrap(),
                r.unwrap(),
            ),
    {
        proof {
            use_type_invariant(cf);
            match ordinal_of(str.spec_bytes()) {
                Some(n) => {
                    if cf.next_day_of_month(n) is Some {
                        lemma_next_day_of_month(*cf, n);
                    }
                },
                None => {},
            }
        }
        let s = str.as_bytes();
        let n: usize = s.len();
        if n < 2 {
            return None;
        }
        let a: u8 = s[n - 2];
        let b: u8 = s[n - 1];
        if !((a == 0x73 && b == 0x74) || (a == 0x6e && b == 0x64) || (a == 0x72 && b == 0x64) || (a
            == 0x74 && b == 0x68)) {
            return None;
        }
        let target: i64 = match parse_signed(slice_subrange(s, 0, n - 2), i64::MIN, i64::MAX) {
            Some(target) => target,
            None => return None,
        };
        if target < 1 || target > 31 {
            return None;
        }
        let day: u32 = target as u32;
        if cf.day < day {
            if let Some(days) = days_from_civil(cf.year, cf.month, day) {
                return Some(
                    Date {
                        year: cf.year,
                        month: cf.month,
                        day,
                        days,
                        secs: 0,
                        duration: Duration::Days(1),
                    },
                );
            }
        }
        let (year, month) = Date::month_on(cf.year, cf.month);
        if year >= MAX_YEAR {
            return None;
        }
        if let Some(days) = days_from_civil(year, month, day) {
            return Some(Date { year, month, day, days, secs: 0, duration: Duration::Days(1) });
        }
        let (year, month) = Date::month_on(year, month);
        if year >= MAX_YEAR {
            return None;
        }
        let days: i32 = days_from_civil(year, month, day).unwrap();
        Some(Date { year, month, day, days, secs: 0, duration: Duration::Days(1) })
    }

    /// The month after a month.
    fn month_on(year: i32, month: u32) -> (r: (i32, u32))
        requires
            MIN_YEAR <= year < MAX_YEAR,
            1 <= month <= 12,
        ensures
            (r.0 as int, r.1 as int) == month_after(year as int, month as int, 1),
            month_after(year as int, month as int, 2) == month_after(r.0 as int, r.1 as int, 1),
            year <= r.0 <= year + 1,
            1 <= r.1 <= 12,
    {
        if month == 12 {
            (year + 1, 1)
        } else {
            (year, month + 1)
        }
    }

    /// Reads the name of a month as the next such month.
    pub fn from_relative_month(str: &str, cf: &Date) -> (r: Option<Date>)
        ensures
            r == Date::rel_month(str.spec_bytes(), *cf),
    {
        proof {
            use_type_invariant(cf);
        }
        match month_from_name(str) {
            Some(target) => {
                let (_, days) = Date::day_in_month(cf.year, cf.month, 1);
                let base = Date {
                    year: cf.year,
                    month: cf.month,
                    day: 1,
                    days,
                    secs: 0,
                    duration: Duration::Months(1),
                };
                let months: i64 = target as i64 - cf.month as i64;
                if target > cf.month {
                    base.plus(&Duration::Months(months))
                } else {
                    match base.plus(&Duration::Years(1)) {
                        Some(next) => next.plus(&Duration::Months(months)),
                        None => None,
                    }
                }
            },
            None => None,
        }
    }

    /// The days that `steps` days of work from a day of the week take.
    fn workdays_from(steps: i64, weekday: u32) -> (r: i128)
        ensures
            r == workdays(steps as int, weekday as int),
            -0x1_0000_0000_0000_0000 <= r <= 0x1_0000_0000_0000_0000,
    {
        let n: i128 = steps as i128;
        let (rest, first): (i128, i128) = if weekday == 7 {
            if n < 0 {
                (n + 1, -2)
            } else if n == 0 {
                (n, 0)
            } else {
                (n - 1, 1)
            }
        } else if weekday == 1 {
            if n < 0 {
                (n + 1, -3)
            } else {
                (n, 0)
            }
        } else if weekday == 2 {
            if n <= -2 {
                (n + 2, -4)
            } else if n <= 3 {
                (n, 0)
            } else {
                (n - 4, 6)
            }
        } else if weekday == 3 {
            if n <= -3 {
                (n + 3, -5)
            } else if n <= 2 {
                (n, 0)
            } else {
                (n - 3, 5)
            }
        } else if weekday == 4 {
            if n <= -4 {
                (n + 4, -6)
            } else if n <= 1 {
                (n, 0)
            } else {
                (n - 2, 4)
            }
        } else if weekday == 5 {
            if n <= -5 {
                (n + 5, -7)
            } else if n <= 0 {
                (n, 0)
            } else {
                (n - 1, 3)
            }
        } else {
            if n <= -6 {
                (n + 6, -8)
            } else if n == -5 {
                (n + 5, -5)
            } else if n <= 0 {
                (n, 0)
            } else {
                (n - 1, 2)
            }
        };
        let weeks: i128 = if rest >= 0 {
            rest / 5
        } else {
            -((-rest) / 5)
        };
        weeks * 7 + (rest - weeks * 5) + first
    }

    /// Reads a signed number with a unit as so much later.
    pub fn from_relative_offset(str: &str, cf: &Date) -> (r: Option<Date>)
        ensures
            r == Date::rel_offset(str.spec_bytes(), *cf),
    {
        let s = str.as_bytes();
        let n: usize = s.len();
        if n == 0 {
            return None;
        }
        let unit: u8 = s[n - 1];
        let number = slice_subrange(s, 0, n - 1);
        assert(number@ =~= s@.drop_last());
        if unit == 0x79 {
            return match parse_signed(number, i32::MIN as i64, i32::MAX as i64) {
                Some(years) => cf.plus(&Duration::Years(years as i32)),
                None => None,
            };
        }
        let count: i64 = match parse_signed(number, i64::MIN, i64::MAX) {
            Some(count) => count,
            None => return None,
        };
        if unit == 0x73 {
            cf.plus(&Duration::Seconds(count))
        } else if unit == 0x6d {
            cf.plus(&Duration::Minutes(count))
        } else if unit == 0x68 {
            cf.plus(&Duration::Hours(count))
        } else if unit == 0x64 {
            cf.plus(&Duration::Days(count))
        } else if unit == 0x57 {
            let days: i128 = Date::workdays_from(count, cf.day_of_week());
            cf.shift(days * 86400)
        } else if unit == 0x77 {
            cf.shift((count as i128) * 7 * 86400)
        } else if unit == 0x4d {
            cf.plus(&Duration::Months(count))
        } else {
            None
        }
    }

    /// Reads `today`, `tomorrow`, `yesterday`, their short forms, or `now`.
    pub fn from_relative_named(str: &str, cf: &Date) -> (r: Option<Date>)
        ensures
            r == Date::rel_named(str.spec_bytes(), *cf),
    {
        let days: i128 = if str_eq(str, "today") {
            0
        } else if str_eq(str, "tomorrow") || str_eq(str, "tom") {
            1
        } else if str_eq(str, "yesterday") || str_eq(str, "yes") {
            -1
        } else if str_eq(str, "now") {
            return Some(*cf);
        } else {
            return None;
        };
        cf.at_midnight(Duration::Days(1)).shift(days * 86400)
    }
}

/// The first of the month after a month follows its last day.
pub proof fn lemma_next_month(year: int, month: int)
    requires
        1 <= month <= 12,
    ensures
        ({
            let (y, m) = month_after(year, month, 1);
            &&& 1 <= m <= 12
            &&& (year, month + 1) == (y, m) || (month == 12 && (year + 1, 1int) == (y, m))
            &&& day_number(y, m, 1) == day_number(year, month, 1) + days_in_month(year, month)
        }),
{
    lemma_days_before_month(year);
    lemma_days_before_month(year + 1);
    lemma_year_length(year);
    lemma_day_in_year(year, month, 1);
}

impl Date {
    /// What a date built from fields that name a moment holds.
    pub proof fn lemma_built(year: int, month: int, day: int, clock: int, duration: Duration)
        requires
            valid_date(year, month, day),
            0 <= clock < 86400,
        ensures
            ({
                let date = Date::built(year, month, day, clock, duration);
                &&& date.year() == year
                &&& date.month() == month
                &&& date.day() == day
                &&& date.clock() == clock
                &&& date.resolution() == duration
                &&& date.instant() == day_number(year, month, day) * 86400 + clock
                &&& (year < MAX_YEAR ==> date.well_formed())
            }),
    {
        lemma_day_in_year(year, month, day);
        lemma_years_ordered(MIN_YEAR as int, year);
        lemma_years_ordered(year + 1, MAX_YEAR as int + 1);
    }

    /// Where the span of a date ends, for each resolution.
    pub proof fn lemma_span_end(self)
        requires
            1 <= self.month() <= 12,
            1 <= self.day() <= days_in_month(self.year(), self.month()),
        ensures
            self.resolution() is Seconds ==> self.span_end() == self.instant() + 1,
            self.resolution() is Minutes ==> self.span_end() == self.instant() + 60,
            self.resolution() is Hours ==> self.span_end() == self.instant() + 3600,
            self.resolution() is Days ==> self.span_end() == self.instant() + 86400,
            self.resolution() is Months && self.day() == 1 ==> self.span_end() == self.instant()
                + days_in_month(self.year(), self.month()) * 86400,
            self.resolution() is Years && self.day() == 1 && self.month() == 1 ==> self.span_end()
                == self.instant() + days_in_year(self.year()) * 86400,
    {
        lemma_next_month(self.year(), self.month());
        lemma_days_before_month(self.year());
        lemma_days_before_month(self.year() + 1);
        lemma_year_length(self.year());
    }
}

/// Whether `next` is the next day `n` of a month after the day of `cf`: a
/// date of day resolution, day `n` of its month, after the day of `cf`, and
/// the first such day: every day `n` of a month that lies after the day of
/// `cf` is this one or a later one.
pub open spec fn is_next_day_of_month(cf: Date, n: int, next: Date) -> bool {
    let today = day_number(cf.year(), cf.month(), cf.day());
    &&& next.well_formed()
    &&& next.resolution() == Duration::Days(1)
    &&& next.day() == n
    &&& next.clock() == 0
    &&& today < day_number(next.year(), next.month(), n)
    &&& forall|year: int, month: int|
        1 <= month <= 12 && n <= days_in_month(year, month) && today < #[trigger] day_number(
            year,
            month,
            n,
        ) ==> day_number(next.year(), next.month(), n) <= day_number(year, month, n)
}

/// Next occurrence: the date that an ordinal names is the next such day of
/// a month after the day at which it is read.
pub proof fn lemma_next_day_of_month(cf: Date, n: int)
    requires
        cf.well_formed(),
        1 <= n <= 31,
        cf.next_day_of_month(n) is Some,
    ensures
        is_next_day_of_month(cf, n, cf.next_day_of_month(n).unwrap()),
{
    let ahead = months_until(cf.year(), cf.month(), cf.day(), n);
    let (y1, m1) = month_after(cf.year(), cf.month(), 1);
    let (y2, m2) = month_after(cf.year(), cf.month(), 2);
    let (y, m) = month_after(cf.year(), cf.month(), ahead);
    let today = day_number(cf.year(), cf.month(), cf.day());
    lemma_next_month(cf.year(), cf.month());
    lemma_next_month(y1, m1);
    assert(n <= days_in_month(y, m));
    Date::lemma_built(y, m, n, 0, Duration::Days(1));
    lemma_dates_ordered(cf.year(), cf.month(), cf.day(), y, m, n);
    assert forall|year: int, month: int|
        1 <= month <= 12 && n <= days_in_month(year, month) && today < #[trigger] day_number(
            year,
            month,
            n,
        ) implies day_number(y, m, n) <= day_number(year, month, n) by {
        if year < cf.year() || (year == cf.year() && (month < cf.month() || (month == cf.month()
            && n <= cf.day()))) {
            lemma_dates_ordered(year, month, n, cf.year(), cf.month(), cf.day());
        } else if year < y || (year == y && month < m) {
            assert((year, month) == (cf.year(), cf.month()) || (year, month) == (y1, m1));
        } else {
            lemma_dates_ordered(y, m, n, year, month, n);
        }
    }
}

/// Containment of spans: of two absolute dates, one of which goes on where
/// the text of the other ends, the longer lies within the shorter. A date of
/// coarser resolution holds every finer date that starts with its text.
pub proof fn lemma_prefix_within(coarse: Seq<u8>, fine: Seq<u8>)
    requires
        abs_of(coarse) is Some,
        abs_of(fine) is Some,
        coarse.len() <= fine.len(),
        fine.subrange(0, coarse.len() as int) == coarse,
    ensures
        abs_of(fine).unwrap().is_within(abs_of(coarse).unwrap()),
{
    let c = abs_of(coarse).unwrap();
    let f = abs_of(fine).unwrap();
    let year = field_at(fine, 0, 4, 0);
    let month = field_at(fine, 5, 2, 1);
    let day = field_at(fine, 8, 2, 1);
    let hour = field_at(fine, 11, 2, 0);
    let minute = field_at(fine, 14, 2, 0);
    let second = field_at(fine, 17, 2, 0);
    assert(coarse.subrange(0, 4) =~= fine.subrange(0, 4));
    if coarse.len() >= 7 {
        assert(coarse.subrange(5, 7) =~= fine.subrange(5, 7));
    }
    if coarse.len() >= 10 {
        assert(coarse.subrange(8, 10) =~= fine.subrange(8, 10));
    }
    if coarse.len() >= 13 {
        assert(coarse.subrange(11, 13) =~= fine.subrange(11, 13));
    }
    if coarse.len() >= 16 {
        assert(coarse.subrange(14, 16) =~= fine.subrange(14, 16));
    }
    if coarse.len() >= 19 {
        assert(coarse.subrange(17, 19) =~= fine.subrange(17, 19));
    }
    let c_month = field_at(coarse, 5, 2, 1);
    let c_day = field_at(coarse, 8, 2, 1);
    let c_hour = field_at(coarse, 11, 2, 0);
    let c_minute = field_at(coarse, 14, 2, 0);
    let c_second = field_at(coarse, 17, 2, 0);
    Date::lemma_built(
        year,
        month,
        day,
        hour * 3600 + minute * 60 + second,
        resolution_of(fine.len() as int),
    );
    Date::lemma_built(
        year,
        c_month,
        c_day,
        c_hour * 3600 + c_minute * 60 + c_second,
        resolution_of(coarse.len() as int),
    );
    c.lemma_span_end();
    f.lemma_span_end();
    lemma_day_in_year(year, month, day);
    lemma_day_in_year(year, c_month, c_day);
    lemma_days_before_month(year);
    lemma_year_length(year);
    if c_month == month {
        lemma_dates_ordered(year, c_month, c_day, year, month, day);
    } else {
        lemma_dates_ordered(year, c_month, c_day, year, month, day);
        lemma_day_in_year(year, month, 1);
    }
}

} // verus!
