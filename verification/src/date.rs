use vstd::prelude::*;

verus! {

/// A calendar date, held as plain year / month / day numbers so that
/// expiry ordering can be stated and proved directly.
#[derive(Clone, Copy, Debug, PartialEq, Eq, Structural)]
pub struct Date {
    pub year: u32,
    pub month: u32,
    pub day: u32,
}

/// How many days the given month has in the given year.
pub open spec fn spec_days_in_month(year: u32, month: u32) -> int {
    if month == 2 {
        if spec_is_leap_year(year) {
            29
        } else {
            28
        }
    } else if month == 4 || month == 6 || month == 9 || month == 11 {
        30
    } else {
        31
    }
}

pub open spec fn spec_is_leap_year(year: u32) -> bool {
    (year % 4 == 0 && year % 100 != 0) || year % 400 == 0
}

/// Strict calendar order on dates: year first, then month, then day.
pub open spec fn spec_date_lt(a: Date, b: Date) -> bool {
    a.year < b.year || (a.year == b.year && (a.month < b.month || (a.month == b.month
        && a.day < b.day)))
}

pub open spec fn spec_date_le(a: Date, b: Date) -> bool {
    spec_date_lt(a, b) || a == b
}

impl Date {
    /// A date is well formed when its month and day exist on the calendar.
    pub open spec fn wf(self) -> bool {
        1 <= self.month <= 12 && 1 <= self.day <= spec_days_in_month(self.year, self.month)
    }

    /// Builds a date, rejecting months and days that do not exist.
    pub fn new(year: u32, month: u32, day: u32) -> (r: Option<Date>)
        ensures
            match r {
                Some(d) => d == (Date { year, month, day }) && d.wf(),
                None => !(Date { year, month, day }).wf(),
            },
    {
        let leap = (year % 4 == 0 && year % 100 != 0) || year % 400 == 0;
        let days: u32 = if month == 2 {
            if leap {
                29
            } else {
                28
            }
        } else if month == 4 || month == 6 || month == 9 || month == 11 {
            30
        } else {
            31
        };
        if 1 <= month && month <= 12 && 1 <= day && day <= days {
            Some(Date { year, month, day })
        } else {
            None
        }
    }

    /// Calendar comparison, strict.
    pub fn lt(&self, other: &Date) -> (r: bool)
        ensures
            r == spec_date_lt(*self, *other),
    {
        self.year < other.year || (self.year == other.year && (self.month < other.month || (
        self.month == other.month && self.day < other.day)))
    }

    /// Calendar comparison, non-strict.
    pub fn le(&self, other: &Date) -> (r: bool)
        ensures
            r == spec_date_le(*self, *other),
    {
        self.lt(other) || (self.year == other.year && self.month == other.month && self.day
            == other.day)
    }
}

/// The date order is total.
pub proof fn lemma_date_le_total(a: Date, b: Date)
    ensures
        spec_date_le(a, b) || spec_date_le(b, a),
{
}

/// The date order is transitive.
pub proof fn lemma_date_le_transitive(a: Date, b: Date, c: Date)
    requires
        spec_date_le(a, b),
        spec_date_le(b, c),
    ensures
        spec_date_le(a, c),
{
}

} // verus!
