//! A plain calendar date-time value with verified calendar arithmetic.
//!
//! The resolver works on this type instead of an opaque library date: it
//! holds the year, month, day and time of day as plain integers, with a
//! well-formedness predicate that pins them to the proleptic Gregorian
//! calendar. Conversion to epoch seconds, stepping back one day and
//! stepping back one year are all verified against the recursive calendar
//! model below.

use vstd::prelude::*;

verus! {

/// Years of the supported calendar range. Tokens only ever carry four-digit
/// years, and the resolver never steps more than one year back from `now`.
pub const MIN_YEAR: i32 = 0;

/// Largest year a well-formed `DateTime` can hold.
pub const MAX_YEAR: i32 = 9999;

/// A Gregorian leap year: divisible by 4, except centuries not divisible by 400.
pub open spec fn is_leap_year(y: int) -> bool {
    y % 4 == 0 && (y % 100 != 0 || y % 400 == 0)
}

/// Length of month `m` (1 through 12) of year `y`, in days.
pub open spec fn days_in_month(y: int, m: int) -> int {
    if m == 1 {
        31
    } else if m == 2 {
        if is_leap_year(y) {
            29
        } else {
            28
        }
    } else if m == 3 {
        31
    } else if m == 4 {
        30
    } else if m == 5 {
        31
    } else if m == 6 {
        30
    } else if m == 7 {
        31
    } else if m == 8 {
        31
    } else if m == 9 {
        30
    } else if m == 10 {
        31
    } else if m == 11 {
        30
    } else {
        31
    }
}

/// Days of year `y` that precede the first day of month `m` (1 through 12).
pub open spec fn days_before_month(y: int, m: int) -> int {
    let leap: int = if m > 2 && is_leap_year(y) {
        1
    } else {
        0
    };
    leap + if m == 1 {
        0int
    } else if m == 2 {
        31
    } else if m == 3 {
        59
    } else if m == 4 {
        90
    } else if m == 5 {
        120
    } else if m == 6 {
        151
    } else if m == 7 {
        181
    } else if m == 8 {
        212
    } else if m == 9 {
        243
    } else if m == 10 {
        273
    } else if m == 11 {
        304
    } else {
        334
    }
}

/// Days in all years before year `y`, counted from year 0.
pub open spec fn days_before_year(y: int) -> int
    decreases y,
{
    if y <= 0 {
        0
    } else {
        days_before_year(y - 1) + if is_leap_year(y - 1) {
            366int
        } else {
            365int
        }
    }
}

/// An absolute date and time of day, with no time zone: the resolver's
/// notion of an instant.
#[derive(Clone, Copy, Debug, PartialEq, Eq, Structural)]
pub struct DateTime {
    pub year: i32,
    pub month: u32,
    pub day: u32,
    pub hour: u32,
    pub minute: u32,
    pub second: u32,
}

impl DateTime {
    /// Well-formedness: the fields name a real calendar date and time of day.
    pub open spec fn wf(self) -> bool {
        &&& MIN_YEAR <= self.year <= MAX_YEAR
        &&& 1 <= self.month <= 12
        &&& 1 <= self.day <= days_in_month(self.year as int, self.month as int)
        &&& self.hour <= 23
        &&& self.minute <= 59
        &&& self.second <= 59
    }

    /// Days from 1970-01-01 to this value's calendar date (negative before 1970).
    pub open spec fn spec_epoch_days(self) -> int {
        days_before_year(self.year as int) + days_before_month(
            self.year as int,
            self.month as int,
        ) + (self.day as int - 1) - days_before_year(1970)
    }

    /// The calendar day before this one, keeping the time of day.
    /// Meaningful whenever `self` is well-formed and not the first
    /// supported day.
    pub open spec fn spec_prev_day(self) -> DateTime {
        if self.day > 1 {
            DateTime { day: (self.day - 1) as u32, ..self }
        } else if self.month > 1 {
            DateTime {
                month: (self.month - 1) as u32,
                day: days_in_month(self.year as int, self.month as int - 1) as u32,
                ..self
            }
        } else {
            DateTime { year: (self.year - 1) as i32, month: 12, day: 31, ..self }
        }
    }

    /// Seconds from 1970-01-01 00:00:00 to this value (negative before then).
    pub open spec fn spec_timestamp(self) -> int {
        self.spec_epoch_days() * 86400 + self.hour as int * 3600 + self.minute as int * 60
            + self.second as int
    }
}

impl DateTime {
    /// Build a value from its fields, checking well-formedness.
    pub fn new(year: i32, month: u32, day: u32, hour: u32, minute: u32, second: u32) -> (r:
        Option<DateTime>)
        ensures
            ({
                let dt = DateTime { year, month, day, hour, minute, second };
                if dt.wf() {
                    r == Some(dt)
                } else {
                    r is None
                }
            }),
    {
        let dt = DateTime { year, month, day, hour, minute, second };
        if MIN_YEAR <= year && year <= MAX_YEAR && 1 <= month && month <= 12 && 1 <= day
            && day <= days_in_month_ex(year, month) && hour <= 23 && minute <= 59 && second <= 59 {
            Some(dt)
        } else {
            None
        }
    }

    /// Seconds since 1970-01-01 00:00:00 (negative for earlier instants).
    pub fn timestamp(&self) -> (r: i64)
        requires
            self.wf(),
        ensures
            r == self.spec_timestamp(),
    {
        let days: i64 = days_before_year_ex(self.year) + days_before_month_ex(
            self.year,
            self.month,
        ) as i64 + self.day as i64 - 1 - days_before_year_ex(1970);
        days * 86400 + self.hour as i64 * 3600 + self.minute as i64 * 60 + self.second as i64
    }

    /// The calendar day before this one, keeping the time of day.
    /// `None` only at the very start of the supported range.
    pub fn prev_day(&self) -> (r: Option<DateTime>)
        requires
            self.wf(),
        ensures
            (self.year == MIN_YEAR && self.month == 1 && self.day == 1) <==> r is None,
            r matches Some(p) ==> {
                &&& p == self.spec_prev_day()
                &&& p.wf()
                &&& p.spec_epoch_days() == self.spec_epoch_days() - 1
                &&& p.spec_timestamp() == self.spec_timestamp() - 86400
                &&& p.hour == self.hour
                &&& p.minute == self.minute
                &&& p.second == self.second
            },
    {
        if self.day > 1 {
            Some(DateTime { day: self.day - 1, ..*self })
        } else if self.month > 1 {
            let m: u32 = self.month - 1;
            Some(DateTime { month: m, day: days_in_month_ex(self.year, m), ..*self })
        } else if self.year > MIN_YEAR {
            let p = DateTime { year: self.year - 1, month: 12, day: 31, ..*self };
            proof {
                assert(days_before_year(self.year as int) == days_before_year(self.year as int - 1)
                    + if is_leap_year(self.year as int - 1) {
                    366int
                } else {
                    365int
                });
            }
            Some(p)
        } else {
            None
        }
    }

    /// The same month and day in the previous year, at the same time of day,
    /// with the day clamped to the length of that month (February 29 becomes
    /// February 28 when the previous year is not a leap year).
    /// `None` only at the very start of the supported range.
    pub fn prev_year_clamped(&self) -> (r: Option<DateTime>)
        requires
            self.wf(),
        ensures
            self.year == MIN_YEAR <==> r is None,
            r matches Some(p) ==> {
                &&& p.wf()
                &&& p.year == self.year - 1
                &&& p.month == self.month
                &&& p.day == if self.day <= days_in_month(self.year - 1, self.month as int) {
                    self.day as int
                } else {
                    days_in_month(self.year - 1, self.month as int)
                }
                &&& p.hour == self.hour
                &&& p.minute == self.minute
                &&& p.second == self.second
            },
    {
        if self.year > MIN_YEAR {
            let y: i32 = self.year - 1;
            let dim: u32 = days_in_month_ex(y, self.month);
            let d: u32 = if self.day <= dim {
                self.day
            } else {
                dim
            };
            Some(DateTime { year: y, day: d, ..*self })
        } else {
            None
        }
    }
}

/// Stepping back one calendar day steps the epoch day count back by one,
/// and the timestamp back by exactly one day's worth of seconds.
pub proof fn lemma_prev_day_timestamp(d: DateTime)
    requires
        d.wf(),
        !(d.year == MIN_YEAR && d.month == 1 && d.day == 1),
    ensures
        d.spec_prev_day().wf(),
        d.spec_prev_day().spec_epoch_days() == d.spec_epoch_days() - 1,
        d.spec_prev_day().spec_timestamp() == d.spec_timestamp() - 86400,
        d.spec_prev_day().hour == d.hour,
        d.spec_prev_day().minute == d.minute,
        d.spec_prev_day().second == d.second,
{
    if d.day == 1 && d.month == 1 {
        assert(days_before_year(d.year as int) == days_before_year(d.year as int - 1)
            + if is_leap_year(d.year as int - 1) {
            366int
        } else {
            365int
        });
    }
}

/// Days in all years of `[0, y)`, computed by walking the years.
pub fn days_before_year_ex(y: i32) -> (r: i64)
    requires
        MIN_YEAR <= y <= MAX_YEAR + 1,
    ensures
        r == days_before_year(y as int),
        0 <= r <= 366 * (y as int),
{
    let mut r: i64 = 0;
    let mut i: i32 = 0;
    while i < y
        invariant
            0 <= i <= y <= MAX_YEAR + 1,
            r == days_before_year(i as int),
            0 <= r <= 366 * (i as int),
        decreases y - i,
    {
        if i % 4 == 0 && (i % 100 != 0 || i % 400 == 0) {
            r = r + 366;
        } else {
            r = r + 365;
        }
        i = i + 1;
    }
    r
}

/// Executable form of `days_before_month`.
pub fn days_before_month_ex(y: i32, m: u32) -> (r: u32)
    requires
        1 <= m <= 12,
    ensures
        r == days_before_month(y as int, m as int),
{
    let base: u32 = if m == 1 {
        0
    } else if m == 2 {
        31
    } else if m == 3 {
        59
    } else if m == 4 {
        90
    } else if m == 5 {
        120
    } else if m == 6 {
        151
    } else if m == 7 {
        181
    } else if m == 8 {
        212
    } else if m == 9 {
        243
    } else if m == 10 {
        273
    } else if m == 11 {
        304
    } else {
        334
    };
    if m > 2 && y % 4 == 0 && (y % 100 != 0 || y % 400 == 0) {
        base + 1
    } else {
        base
    }
}

/// Executable form of `days_in_month`.
pub fn days_in_month_ex(y: i32, m: u32) -> (r: u32)
    requires
        1 <= m <= 12,
    ensures
        r == days_in_month(y as int, m as int),
{
    if m == 2 {
        if y % 4 == 0 && (y % 100 != 0 || y % 400 == 0) {
            29
        } else {
            28
        }
    } else if m == 4 || m == 6 || m == 9 || m == 11 {
        30
    } else {
        31
    }
}

} // verus!
