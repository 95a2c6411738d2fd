use vstd::prelude::*;

verus! {

/// A calendar date held as a year and a 1-based ordinal day within that year.
#[derive(Clone, Copy, PartialEq, Eq, Structural, Debug)]
pub struct Date {
    pub year: i64,
    pub day: i64,
}

/// A conventional calendar date: a year, a 1-based month and a 1-based day
/// of that month.
#[derive(Clone, Copy, PartialEq, Eq, Structural, Debug)]
pub struct Ymd {
    pub year: i64,
    pub month: u8,
    pub day: u8,
}

/// A year is a leap year when it is divisible by 4, except century years,
/// which are leap years only when divisible by 400.
pub open spec fn spec_is_leap(year: int) -> bool {
    year % 4 == 0 && (year % 100 != 0 || year % 400 == 0)
}

pub open spec fn spec_days_in_year(year: int) -> int {
    if spec_is_leap(year) {
        366
    } else {
        365
    }
}

/// Number of days in a 1-based month of a year with the given leap status.
pub open spec fn spec_days_in_month(leap: bool, month: int) -> int {
    if month == 1 {
        31
    } else if month == 2 {
        if leap {
            29
        } else {
            28
        }
    } else if month == 3 {
        31
    } else if month == 4 {
        30
    } else if month == 5 {
        31
    } else if month == 6 {
        30
    } else if month == 7 {
        31
    } else if month == 8 {
        31
    } else if month == 9 {
        30
    } else if month == 10 {
        31
    } else if month == 11 {
        30
    } else {
        31
    }
}

/// Number of days of the year that pass before a 1-based month begins.
pub open spec fn spec_days_before_month(leap: bool, month: int) -> int {
    let base: int = if month == 1 {
        0
    } else if month == 2 {
        31
    } else if month == 3 {
        59
    } else if month == 4 {
        90
    } else if month == 5 {
        120
    } else if month == 6 {
        151
    } else if month == 7 {
        181
    } else if month == 8 {
        212
    } else if month == 9 {
        243
    } else if month == 10 {
        273
    } else if month == 11 {
        304
    } else {
        334
    };
    if leap && month >= 3 {
        base + 1
    } else {
        base
    }
}

/// The conventional date that a (year, ordinal day) pair denotes, or `None`
/// when the ordinal day is out of range for that year.
pub open spec fn spec_to_ymd(d: Date) -> Option<Ymd> {
    if 1 <= d.day <= spec_days_in_year(d.year as int) {
        let leap = spec_is_leap(d.year as int);
        let m: int = if d.day <= spec_days_before_month(leap, 2) {
            1
        } else if d.day <= spec_days_before_month(leap, 3) {
            2
        } else if d.day <= spec_days_before_month(leap, 4) {
            3
        } else if d.day <= spec_days_before_month(leap, 5) {
            4
        } else if d.day <= spec_days_before_month(leap, 6) {
            5
        } else if d.day <= spec_days_before_month(leap, 7) {
            6
        } else if d.day <= spec_days_before_month(leap, 8) {
            7
        } else if d.day <= spec_days_before_month(leap, 9) {
            8
        } else if d.day <= spec_days_before_month(leap, 10) {
            9
        } else if d.day <= spec_days_before_month(leap, 11) {
            10
        } else if d.day <= spec_days_before_month(leap, 12) {
            11
        } else {
            12
        };
        Some(
            Ymd {
                year: d.year,
                month: m as u8,
                day: (d.day - spec_days_before_month(leap, m)) as u8,
            },
        )
    } else {
        None
    }
}

/// The (year, ordinal day) pair that a conventional date denotes, or `None`
/// when the month or the day of the month is out of range.
pub open spec fn spec_from_ymd(year: int, month: int, day: int) -> Option<Date> {
    let leap = spec_is_leap(year);
    if 1 <= month <= 12 && 1 <= day <= spec_days_in_month(leap, month) {
        Some(Date { year: year as i64, day: (spec_days_before_month(leap, month) + day) as i64 })
    } else {
        None
    }
}

/// The signed day count from `today` to `due`, with a due date in the year
/// after `today` treated as day 365 + N of the current year.
pub open spec fn spec_days_remaining(due: Date, today: Date) -> int {
    due.day + (if due.year == today.year + 1 {
        365int
    } else {
        0int
    }) - today.day
}

impl Date {
    /// The ordinal day is in range for the year.
    pub open spec fn wf(self) -> bool {
        1 <= self.day <= spec_days_in_year(self.year as int)
    }

    pub fn ymd(year: i64, day: i64) -> (d: Date)
        ensures
            d == (Date { year, day }),
    {
        Date { year, day }
    }

    /// Converts this (year, ordinal day) pair to a conventional calendar
    /// date; yields `None` when the ordinal day is out of range for the year.
    pub fn to_ymd(&self) -> (r: Option<Ymd>)
        ensures
            r == spec_to_ymd(*self),
            r is Some <==> self.wf(),
    {
        let leap = is_leap_year(self.year);
        let len: i64 = if leap {
            366
        } else {
            365
        };
        if self.day < 1 || self.day > len {
            return None;
        }
        let l: i64 = if leap {
            1
        } else {
            0
        };
        let d = self.day;
        let (month, before): (u8, i64) = if d <= 31 {
            (1, 0)
        } else if d <= 59 + l {
            (2, 31)
        } else if d <= 90 + l {
            (3, 59 + l)
        } else if d <= 120 + l {
            (4, 90 + l)
        } else if d <= 151 + l {
            (5, 120 + l)
        } else if d <= 181 + l {
            (6, 151 + l)
        } else if d <= 212 + l {
            (7, 181 + l)
        } else if d <= 243 + l {
            (8, 212 + l)
        } else if d <= 273 + l {
            (9, 243 + l)
        } else if d <= 304 + l {
            (10, 273 + l)
        } else if d <= 334 + l {
            (11, 304 + l)
        } else {
            (12, 334 + l)
        };
        Some(Ymd { year: self.year, month, day: (d - before) as u8 })
    }

    /// Builds a (year, ordinal day) pair from a conventional calendar date;
    /// yields `None` when the month or the day of the month is out of range.
    pub fn from_ymd(year: i64, month: i64, day: i64) -> (r: Option<Date>)
        ensures
            r == spec_from_ymd(year as int, month as int, day as int),
    {
        if month < 1 || month > 12 {
            return None;
        }
        let leap = is_leap_year(year);
        let l: i64 = if leap {
            1
        } else {
            0
        };
        let (limit, before): (i64, i64) = if month == 1 {
            (31, 0)
        } else if month == 2 {
            (28 + l, 31)
        } else if month == 3 {
            (31, 59 + l)
        } else if month == 4 {
            (30, 90 + l)
        } else if month == 5 {
            (31, 120 + l)
        } else if month == 6 {
            (30, 151 + l)
        } else if month == 7 {
            (31, 181 + l)
        } else if month == 8 {
            (31, 212 + l)
        } else if month == 9 {
            (30, 243 + l)
        } else if month == 10 {
            (31, 273 + l)
        } else if month == 11 {
            (30, 304 + l)
        } else {
            (31, 334 + l)
        };
        if day < 1 || day > limit {
            return None;
        }
        Some(Date { year, day: before + day })
    }

    /// The signed day count from `today` to this due date: negative when
    /// overdue, zero when due today. A due date in the year after `today`
    /// counts as day 365 + N of the current year; dates further away in
    /// either direction are not represented faithfully.
    pub fn days_remaining_from(&self, today: Date) -> (r: i16)
        requires
            self.wf(),
            1 <= today.day <= 366,
        ensures
            r as int == spec_days_remaining(*self, today),
    {
        let bump: i64 = if self.year > i64::MIN && self.year - 1 == today.year {
            365
        } else {
            0
        };
        (self.day + bump - today.day) as i16
    }
}

/// Relies on datetime's `LocalDate::today` and its `DatePiece` accessors:
/// the current local date's year and 1-based ordinal day; datetime computes
/// the ordinal day within 1..=366.
#[verifier::external_body]
pub fn today_date() -> (r: Date)
    ensures
        1 <= r.day <= 366,
{
    let now = <datetime::LocalDate as datetime::convenience::Today>::today();
    Date {
        year: datetime::DatePiece::year(&now),
        day: datetime::DatePiece::yearday(&now) as i64,
    }
}

pub fn is_leap_year(year: i64) -> (b: bool)
    ensures
        b == spec_is_leap(year as int),
{
    year % 4 == 0 && (year % 100 != 0 || year % 400 == 0)
}

/// A due date in the same year as the reference date leaves exactly the
/// difference of the two ordinal days: zero when due today, N when due N
/// days ahead, -N when N days past.
pub proof fn lemma_days_remaining_same_year(due: Date, today: Date)
    requires
        due.year == today.year,
    ensures
        spec_days_remaining(due, today) == due.day - today.day,
{
}

/// The conventional date computed for a valid (year, ordinal day) pair is
/// the one whose month and day of the month are in range and account
/// together for exactly the ordinal day.
pub proof fn lemma_to_ymd_correct(d: Date)
    requires
        d.wf(),
    ensures
        spec_to_ymd(d) is Some,
        ({
            let leap = spec_is_leap(d.year as int);
            let ymd = spec_to_ymd(d)->Some_0;
            &&& ymd.year == d.year
            &&& 1 <= ymd.month <= 12
            &&& 1 <= ymd.day <= spec_days_in_month(leap, ymd.month as int)
            &&& d.day == spec_days_before_month(leap, ymd.month as int) + ymd.day
        }),
{
}

/// Converting a valid (year, ordinal day) pair to a conventional date and
/// back yields the original pair, and the conversion succeeds exactly on the
/// valid pairs.
pub proof fn lemma_ymd_round_trip(d: Date)
    requires
        d.wf(),
    ensures
        spec_to_ymd(d) is Some,
        spec_from_ymd(
            spec_to_ymd(d)->Some_0.year as int,
            spec_to_ymd(d)->Some_0.month as int,
            spec_to_ymd(d)->Some_0.day as int,
        ) == Some(d),
{
}

} // verus!
