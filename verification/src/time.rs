//! Creation timestamps, captured at session start and used to name entries
//! that have no title.

use vstd::prelude::*;

verus! {

/// A calendar timestamp, precise to one second. The caller captures it once
/// when a scratch session begins; the core never reads a clock itself.
#[derive(Clone, Copy, Debug, PartialEq, Eq, Structural)]
pub struct Timestamp {
    pub year: u16,
    pub month: u8,
    pub day: u8,
    pub hour: u8,
    pub minute: u8,
    pub second: u8,
}

impl Timestamp {
    /// A well-formed timestamp: each field within its calendar range.
    pub open spec fn wf(self) -> bool {
        self.year <= 9999 && 1 <= self.month <= 12 && 1 <= self.day <= 31
            && self.hour <= 23 && self.minute <= 59 && self.second <= 59
    }

    /// `self` denotes an earlier instant than `other`: the fields compare
    /// lexicographically, most significant first.
    pub open spec fn before(self, other: Timestamp) -> bool {
        if self.year != other.year {
            self.year < other.year
        } else if self.month != other.month {
            self.month < other.month
        } else if self.day != other.day {
            self.day < other.day
        } else if self.hour != other.hour {
            self.hour < other.hour
        } else if self.minute != other.minute {
            self.minute < other.minute
        } else {
            self.second < other.second
        }
    }

    /// The days since 1970-01-01 of this timestamp's date.
    pub open spec fn epoch_days(self) -> int {
        days_before_year(self.year as int) + days_before_month(self.year as int, self.month as int)
            + (self.day - 1)
    }

    /// The seconds since 1970-01-01T00:00:00 of this timestamp.
    pub open spec fn epoch_seconds(self) -> int {
        self.epoch_days() * 86400 + self.hour * 3600 + self.minute * 60 + self.second
    }

    /// Checks each field's calendar range, exactly as `wf` states it.
    pub fn is_wf(&self) -> (r: bool)
        ensures
            r == self.wf(),
    {
        self.year <= 9999 && 1 <= self.month && self.month <= 12 && 1 <= self.day
            && self.day <= 31 && self.hour <= 23 && self.minute <= 59 && self.second <= 59
    }
}

/// A leap year in the Gregorian calendar.
pub open spec fn is_leap(y: int) -> bool {
    y % 4 == 0 && (y % 100 != 0 || y % 400 == 0)
}

pub open spec fn days_in_year(y: int) -> int {
    if is_leap(y) {
        366
    } else {
        365
    }
}

pub open spec fn days_in_month(y: int, m: int) -> int {
    if m == 2 {
        if is_leap(y) {
            29
        } else {
            28
        }
    } else if m == 4 || m == 6 || m == 9 || m == 11 {
        30
    } else {
        31
    }
}

/// Days from 1970-01-01 to the first day of year `y`.
pub open spec fn days_before_year(y: int) -> int
    decreases y,
{
    if y <= 1970 {
        0
    } else {
        days_before_year(y - 1) + days_in_year(y - 1)
    }
}

/// Days from the first day of year `y` to the first day of its month `m`.
pub open spec fn days_before_month(y: int, m: int) -> int
    decreases m,
{
    if m <= 1 {
        0
    } else {
        days_before_month(y, m - 1) + days_in_month(y, m - 1)
    }
}

/// The months of a year account for all of its days.
proof fn lemma_year_is_its_months(y: int)
    ensures
        days_before_month(y, 13) == days_in_year(y),
{
    reveal_with_fuel(days_before_month, 13);
}

/// Tells a leap year, exactly as `is_leap` states it.
pub fn leap_year(y: u16) -> (r: bool)
    ensures
        r == is_leap(y as int),
{
    y % 4 == 0 && (y % 100 != 0 || y % 400 == 0)
}

fn days_in_year_count(y: u16) -> (r: u16)
    ensures
        r as int == days_in_year(y as int),
{
    if leap_year(y) {
        366
    } else {
        365
    }
}

fn days_in_month_count(y: u16, m: u8) -> (r: u8)
    ensures
        r as int == days_in_month(y as int, m as int),
{
    if m == 2 {
        if leap_year(y) {
            29
        } else {
            28
        }
    } else if m == 4 || m == 6 || m == 9 || m == 11 {
        30
    } else {
        31
    }
}

/// Turns a clock reading, as seconds since 1970-01-01T00:00:00, into the
/// well-formed calendar timestamp denoting the same instant: the result's
/// own `epoch_seconds` is exactly the input. Returns `None` only for an
/// instant past the year 9999.
pub fn timestamp_from_epoch(secs: u64) -> (r: Option<Timestamp>)
    ensures
        match r {
            Option::Some(t) => t.wf() && t.epoch_seconds() == secs as int,
            Option::None => secs as int >= days_before_year(10000) * 86400,
        },
{
    let total_days = secs / 86400;
    let rem = secs % 86400;
    let hour = (rem / 3600) as u8;
    let minute = ((rem % 3600) / 60) as u8;
    let second = (rem % 60) as u8;
    let mut year: u16 = 1970;
    let mut days = total_days;
    loop
        invariant
            1970 <= year <= 9999,
            total_days == days_before_year(year as int) + days,
            total_days == secs / 86400,
        ensures
            1970 <= year <= 9999,
            total_days == days_before_year(year as int) + days,
            days < days_in_year(year as int),
        decreases days,
    {
        let in_year = days_in_year_count(year);
        if days < in_year as u64 {
            break ;
        }
        if year == 9999 {
            proof {
                assert(days_before_year(10000) == days_before_year(9999) + days_in_year(9999));
                assert(total_days >= days_before_year(10000));
                assert(secs as int >= (secs as int / 86400) * 86400) by {
                    assert(secs as int == (secs as int / 86400) * 86400 + secs as int % 86400);
                };
            }
            return None;
        }
        days = days - in_year as u64;
        year = year + 1;
    }
    let mut month: u8 = 1;
    loop
        invariant
            1 <= month <= 12,
            1970 <= year <= 9999,
            days < days_in_year(year as int) - days_before_month(year as int, month as int),
            total_days == days_before_year(year as int) + days_before_month(
                year as int,
                month as int,
            ) + days,
        ensures
            1 <= month <= 12,
            days < days_in_month(year as int, month as int),
            total_days == days_before_year(year as int) + days_before_month(
                year as int,
                month as int,
            ) + days,
        decreases 12 - month,
    {
        let in_month = days_in_month_count(year, month);
        if days < in_month as u64 {
            break ;
        }
        proof {
            if month == 12 {
                lemma_year_is_its_months(year as int);
                assert(false);
            }
        }
        days = days - in_month as u64;
        month = month + 1;
    }
    let t = Timestamp { year, month, day: days as u8 + 1, hour, minute, second };
    proof {
        assert(days < days_in_month(year as int, month as int));
        assert(t.epoch_days() == total_days);
        assert(secs as int == (secs as int / 86400) * 86400 + secs as int % 86400);
        assert(rem as int == (rem as int / 3600) * 3600 + rem as int % 3600);
        assert(rem as int % 3600 == ((rem as int % 3600) / 60) * 60 + (rem as int % 3600) % 60);
        assert((rem as int % 3600) % 60 == rem as int % 60) by {
            assert(rem as int % 3600 == rem as int - (rem as int / 3600) * 3600);
        };
    }
    Some(t)
}

} // verus!
