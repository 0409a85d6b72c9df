//! Calendar dates held as plain year, month and day numbers, in the
//! proleptic Gregorian calendar, with the day arithmetic the reader and
//! the time calculations need.

use vstd::prelude::*;

use vstd::arithmetic::div_mod::{
    lemma_fundamental_div_mod, lemma_fundamental_div_mod_converse, lemma_mod_bound,
    lemma_mod_multiples_vanish, lemma_small_mod,
};

verus! {

/// Years are shifted by this multiple of 400 before the day-number
/// computation, so that every intermediate value is nonnegative for any
/// `i32` year.
pub const YEAR_SHIFT: i64 = 2_400_000_000;

/// The days contributed by the shifted years: `(YEAR_SHIFT / 400)`
/// whole 400-year eras of 146097 days each.
pub const SHIFT_DAYS: i64 = 876_582_000_000;

/// A calendar date: year, month (1 to 12) and day of month (1-based).
#[derive(Debug, Clone, Copy, PartialEq, Eq, Structural, Hash)]
pub struct Date {
    pub year: i32,
    pub month: u32,
    pub day: u32,
}

/// Whether a year is a Gregorian leap year.
pub open spec fn spec_is_leap_year(y: int) -> bool {
    (y % 4 == 0 && y % 100 != 0) || y % 400 == 0
}

/// How many days the month has in the given year.
pub open spec fn spec_days_in_month(y: int, m: int) -> int
    recommends
        1 <= m <= 12,
{
    if m == 2 {
        if spec_is_leap_year(y) {
            29
        } else {
            28
        }
    } else if m == 4 || m == 6 || m == 9 || m == 11 {
        30
    } else {
        31
    }
}

/// Whether year, month and day name a day of the calendar.
pub open spec fn spec_valid_date(y: int, m: int, d: int) -> bool {
    &&& 1 <= m <= 12
    &&& 1 <= d <= spec_days_in_month(y, m)
}

/// The day count from the start of the shifted year `y` era structure:
/// `y` must already be positive.  Months March to December belong to the
/// year they fall in, January and February to the year before, which
/// puts the leap day last.
pub open spec fn spec_civil_days(y: int, m: int, d: int) -> int
    recommends
        y >= 1,
        spec_valid_date(y, m, d),
{
    let yy = if m <= 2 {
        y - 1
    } else {
        y
    };
    let era = yy / 400;
    let yoe = yy - era * 400;
    let mp = if m > 2 {
        m - 3
    } else {
        m + 9
    };
    let doy = (153 * mp + 2) / 5 + d - 1;
    let doe = yoe * 365 + yoe / 4 - yoe / 100 + doy;
    era * 146097 + doe - 719468
}

/// The date's day number: day 0 is 1 January 1970, the day before is
/// -1, and consecutive dates have consecutive numbers.
pub open spec fn spec_day_number(date: Date) -> int {
    spec_civil_days(
        date.year as int + YEAR_SHIFT as int,
        date.month as int,
        date.day as int,
    ) - SHIFT_DAYS as int
}

/// Whether a year is a leap year.
pub fn is_leap_year(y: i32) -> (r: bool)
    ensures
        r == spec_is_leap_year(y as int),
{
    let yy: i64 = (y as i64) + YEAR_SHIFT;
    proof {
        lemma_mod_multiples_vanish(600_000_000int, y as int, 4);
        lemma_mod_multiples_vanish(24_000_000int, y as int, 100);
        lemma_mod_multiples_vanish(6_000_000int, y as int, 400);
    }
    (yy % 4 == 0 && yy % 100 != 0) || yy % 400 == 0
}

/// How many days the month has in the given year.
pub fn days_in_month(y: i32, m: u32) -> (r: u32)
    requires
        1 <= m <= 12,
    ensures
        r == spec_days_in_month(y as int, m as int),
{
    if m == 2 {
        if is_leap_year(y) {
            29
        } else {
            28
        }
    } else if m == 4 || m == 6 || m == 9 || m == 11 {
        30
    } else {
        31
    }
}

impl Date {
    /// The date lies in the calendar.
    pub open spec fn valid(self) -> bool {
        spec_valid_date(self.year as int, self.month as int, self.day as int)
    }

    /// Builds the date when it lies in the calendar, as the reader and
    /// the date-string helpers require of every date they accept.
    pub fn from_ymd_opt(year: i32, month: u32, day: u32) -> (r: Option<Date>)
        ensures
            match r {
                Some(d) => {
                    &&& spec_valid_date(year as int, month as int, day as int)
                    &&& d == (Date { year, month, day })
                },
                None => !spec_valid_date(year as int, month as int, day as int),
            },
    {
        if 1 <= month && month <= 12 && 1 <= day && day <= days_in_month(year, month) {
            Some(Date { year, month, day })
        } else {
            None
        }
    }

    /// The date's day number, with day 0 at 1 January 1970.
    pub fn day_number(&self) -> (n: i64)
        requires
            self.valid(),
        ensures
            n as int == spec_day_number(*self),
    {
        let y: i64 = (self.year as i64) + YEAR_SHIFT;
        let m: i64 = self.month as i64;
        let d: i64 = self.day as i64;
        let yy: i64 = if m <= 2 {
            y - 1
        } else {
            y
        };
        let era: i64 = yy / 400;
        let yoe: i64 = yy - era * 400;
        let mp: i64 = if m > 2 {
            m - 3
        } else {
            m + 9
        };
        let doy: i64 = (153 * mp + 2) / 5 + d - 1;
        let doe: i64 = yoe * 365 + yoe / 4 - yoe / 100 + doy;
        era * 146097 + doe - 719468 - SHIFT_DAYS
    }
}

/// The day after a date.
pub open spec fn spec_next_day(d: Date) -> Date {
    if d.day < spec_days_in_month(d.year as int, d.month as int) {
        Date { year: d.year, month: d.month, day: (d.day + 1) as u32 }
    } else if d.month < 12 {
        Date { year: d.year, month: (d.month + 1) as u32, day: 1 }
    } else {
        Date { year: (d.year + 1) as i32, month: 1, day: 1 }
    }
}

/// The day before a date.
pub open spec fn spec_prev_day(d: Date) -> Date {
    if d.day > 1 {
        Date { year: d.year, month: d.month, day: (d.day - 1) as u32 }
    } else if d.month > 1 {
        Date {
            year: d.year,
            month: (d.month - 1) as u32,
            day: spec_days_in_month(d.year as int, d.month - 1) as u32,
        }
    } else {
        Date { year: (d.year - 1) as i32, month: 12, day: 31 }
    }
}

/// The date `n` days after `d`, one step at a time.
pub open spec fn spec_plus_days(d: Date, n: int) -> Date
    decreases n when n >= 0
{
    if n <= 0 {
        d
    } else {
        spec_plus_days(spec_next_day(d), n - 1)
    }
}

/// The date `n` days before `d`, one step at a time.
pub open spec fn spec_minus_days(d: Date, n: int) -> Date
    decreases n when n >= 0
{
    if n <= 0 {
        d
    } else {
        spec_minus_days(spec_prev_day(d), n - 1)
    }
}

/// Law: the day after a valid date has the next day number, so the
/// numbering counts the calendar one day at a time and differences of
/// day numbers are counts of days.
pub proof fn lemma_day_number_next(d: Date)
    requires
        d.valid(),
        d.year < i32::MAX,
    ensures
        spec_day_number(spec_next_day(d)) == spec_day_number(d) + 1,
{
    let y = d.year as int + YEAR_SHIFT as int;
    let m = d.month as int;
    let dd = d.day as int;
    // the leap rule reads the same on the shifted year
    lemma_mod_multiples_vanish(600_000_000int, d.year as int, 4);
    lemma_mod_multiples_vanish(24_000_000int, d.year as int, 100);
    lemma_mod_multiples_vanish(6_000_000int, d.year as int, 400);
    if dd < spec_days_in_month(d.year as int, m) {
        // the same month goes on: only the day term moves
    } else if m == 2 {
        // February ends: the formula's year-within-era advances
        let yy1 = y - 1;
        let era1 = yy1 / 400;
        let yoe1 = yy1 % 400;
        lemma_fundamental_div_mod(yy1, 400);
        lemma_mod_bound(yy1, 400);
        assert(yy1 == 400 * era1 + yoe1);
        if yoe1 == 399 {
            // a new era begins, and such a year is always a leap year
            lemma_fundamental_div_mod_converse(y, 400, era1 + 1, 0);
            assert(spec_is_leap_year(d.year as int));
            assert(dd == 29);
        } else {
            lemma_fundamental_div_mod_converse(y, 400, era1, yoe1 + 1);
            let q4 = yoe1 / 4;
            let r4 = yoe1 % 4;
            let q100 = yoe1 / 100;
            let r100 = yoe1 % 100;
            lemma_fundamental_div_mod(yoe1, 4);
            lemma_mod_bound(yoe1, 4);
            lemma_fundamental_div_mod(yoe1, 100);
            lemma_mod_bound(yoe1, 100);
            if r4 == 3 {
                lemma_fundamental_div_mod_converse(yoe1 + 1, 4, q4 + 1, 0);
            } else {
                lemma_fundamental_div_mod_converse(yoe1 + 1, 4, q4, r4 + 1);
            }
            if r100 == 99 {
                lemma_fundamental_div_mod_converse(yoe1 + 1, 100, q100 + 1, 0);
            } else {
                lemma_fundamental_div_mod_converse(yoe1 + 1, 100, q100, r100 + 1);
            }
            // divisibility of the shifted year is divisibility of the
            // stepped year-within-era
            lemma_mod_multiples_vanish(100 * era1, yoe1 + 1, 4);
            lemma_mod_multiples_vanish(4 * era1, yoe1 + 1, 100);
            lemma_mod_multiples_vanish(era1, yoe1 + 1, 400);
            lemma_small_mod((yoe1 + 1) as nat, 400nat);
            assert(y % 400 == yoe1 + 1);
        }
    } else {
        // a later month begins; each boundary is a fixed count of days,
        // one case per month
        if m == 1 {
        } else if m == 3 {
        } else if m == 4 {
        } else if m == 5 {
        } else if m == 6 {
        } else if m == 7 {
        } else if m == 8 {
        } else if m == 9 {
        } else if m == 10 {
        } else if m == 11 {
        } else {
            assert(m == 12);
        }
    }
}

/// The day of the week with Monday as 0; day 0, 1 January 1970, was a
/// Thursday.
pub open spec fn spec_weekday_mon0(d: Date) -> int {
    (spec_day_number(d) + 3) % 7
}

/// The day of the week with Monday as 0.
pub fn weekday_mon0(d: &Date) -> (r: u32)
    requires
        d.valid(),
    ensures
        r == spec_weekday_mon0(*d),
        r < 7,
{
    let n = d.day_number();
    let m: i64 = n + 3 + 2_100_000_000_000;
    proof {
        lemma_mod_multiples_vanish(300_000_000_000int, spec_day_number(*d) + 3, 7);
    }
    (m % 7) as u32
}

/// The day after a date.
pub fn next_day(d: &Date) -> (r: Date)
    requires
        d.valid(),
        d.year < i32::MAX,
    ensures
        r == spec_next_day(*d),
        r.valid(),
        d.year <= r.year <= d.year + 1,
{
    if d.day < days_in_month(d.year, d.month) {
        Date { year: d.year, month: d.month, day: d.day + 1 }
    } else if d.month < 12 {
        Date { year: d.year, month: d.month + 1, day: 1 }
    } else {
        Date { year: d.year + 1, month: 1, day: 1 }
    }
}

/// The day before a date.
pub fn prev_day(d: &Date) -> (r: Date)
    requires
        d.valid(),
        d.year > i32::MIN,
    ensures
        r == spec_prev_day(*d),
        r.valid(),
        d.year - 1 <= r.year <= d.year,
{
    if d.day > 1 {
        Date { year: d.year, month: d.month, day: d.day - 1 }
    } else if d.month > 1 {
        Date { year: d.year, month: d.month - 1, day: days_in_month(d.year, d.month - 1) }
    } else {
        Date { year: d.year - 1, month: 12, day: 31 }
    }
}

/// The date `n` days after `d`; the year headroom keeps every step in
/// range.
pub fn plus_days(d: &Date, n: u32) -> (r: Date)
    requires
        d.valid(),
        n <= 400,
        d.year + 401 <= i32::MAX,
    ensures
        r == spec_plus_days(*d, n as int),
        r.valid(),
        d.year <= r.year <= d.year + n,
{
    let mut cur = *d;
    let mut k: u32 = 0;
    while k < n
        invariant
            k <= n,
            n <= 400,
            d.year + 401 <= i32::MAX,
            cur.valid(),
            d.year <= cur.year <= d.year + k,
            spec_plus_days(*d, n as int) == spec_plus_days(cur, n - k),
        decreases n - k,
    {
        cur = next_day(&cur);
        k = k + 1;
    }
    cur
}

/// The date `n` days before `d`.
pub fn minus_days(d: &Date, n: u32) -> (r: Date)
    requires
        d.valid(),
        n <= 400,
        i32::MIN + 401 <= d.year,
    ensures
        r == spec_minus_days(*d, n as int),
        r.valid(),
        d.year - n <= r.year <= d.year,
{
    let mut cur = *d;
    let mut k: u32 = 0;
    while k < n
        invariant
            k <= n,
            n <= 400,
            i32::MIN + 401 <= d.year,
            cur.valid(),
            d.year - k <= cur.year <= d.year,
            spec_minus_days(*d, n as int) == spec_minus_days(cur, n - k),
        decreases n - k,
    {
        cur = prev_day(&cur);
        k = k + 1;
    }
    cur
}

impl PartialOrd for Date {
    /// Dates compare by year, then month, then day.
    fn partial_cmp(&self, other: &Date) -> (r: Option<std::cmp::Ordering>) {
        if self.year < other.year {
            Some(std::cmp::Ordering::Less)
        } else if self.year > other.year {
            Some(std::cmp::Ordering::Greater)
        } else if self.month < other.month {
            Some(std::cmp::Ordering::Less)
        } else if self.month > other.month {
            Some(std::cmp::Ordering::Greater)
        } else if self.day < other.day {
            Some(std::cmp::Ordering::Less)
        } else if self.day > other.day {
            Some(std::cmp::Ordering::Greater)
        } else {
            Some(std::cmp::Ordering::Equal)
        }
    }
}

impl vstd::std_specs::cmp::PartialOrdSpecImpl for Date {
    open spec fn obeys_partial_cmp_spec() -> bool {
        true
    }

    open spec fn partial_cmp_spec(&self, other: &Date) -> Option<std::cmp::Ordering> {
        if self.year < other.year {
            Some(std::cmp::Ordering::Less)
        } else if self.year > other.year {
            Some(std::cmp::Ordering::Greater)
        } else if self.month < other.month {
            Some(std::cmp::Ordering::Less)
        } else if self.month > other.month {
            Some(std::cmp::Ordering::Greater)
        } else if self.day < other.day {
            Some(std::cmp::Ordering::Less)
        } else if self.day > other.day {
            Some(std::cmp::Ordering::Greater)
        } else {
            Some(std::cmp::Ordering::Equal)
        }
    }
}

} // verus!
