//! Minute-resolution times of day, date-and-time moments, and the
//! helpers that read times and dates from text.
//!
//! An [`STime`] counts minutes since 00:00 of some reference day and may
//! exceed 24 hours to express the same clock on a later day.  A
//! [`Moment`] pairs a date with such a time and orders by date first.

use vstd::prelude::*;
use vstd::string::*;

use crate::date::{
    is_leap_year, minus_days, plus_days, spec_day_number, spec_is_leap_year, spec_minus_days,
    spec_plus_days, spec_valid_date, spec_weekday_mon0, weekday_mon0, Date,
};
use crate::digits::{
    dec_padded2, is_numeral, numeral_value, parse_i32, parse_u32, push_padded2, push_i32,
    spec_i32_text, is_int_numeral, int_numeral_value,
};
use crate::err::ErrType;

verus! {

/// A time of day in minutes; values of 24 hours or more stand for the
/// same clock a day (or more) later.
#[derive(Debug, Clone, Copy, PartialEq, Eq, Structural, Hash)]
pub struct STime(u32);

impl View for STime {
    type V = int;

    /// The time as its count of minutes.
    closed spec fn view(&self) -> int {
        self.0 as int
    }
}

/// The text `HH:MM` of a count of minutes, both parts zero-padded to
/// two places, the hours growing past two digits when needed.
pub open spec fn spec_hhmm(mins: int) -> Seq<char> {
    dec_padded2(mins / 60) + seq![':'] + dec_padded2(mins % 60)
}

/// The first index at or after `i` holding character `c`, or the text's
/// end.
pub open spec fn find_char(s: Seq<char>, c: char, i: int) -> int
    decreases s.len() - i when 0 <= i <= s.len()
{
    if i < s.len() && s[i] != c {
        find_char(s, c, i + 1)
    } else {
        i
    }
}

/// Finds the first occurrence of `c` at or after index `i`.
fn find_char_from(s: &str, c: char, i: usize) -> (r: usize)
    requires
        i as int <= s@.len(),
    ensures
        r as int == find_char(s@, c, i as int),
        i <= r && r as int <= s@.len(),
{
    let len = s.unicode_len();
    let mut k: usize = i;
    loop
        invariant
            i <= k,
            k as int <= s@.len(),
            len == s@.len(),
            find_char(s@, c, i as int) == find_char(s@, c, k as int),
        ensures
            i <= k,
            k as int == find_char(s@, c, i as int),
        decreases s@.len() - k,
    {
        if k < len {
            if s.get_char(k) != c {
                k = k + 1;
                continue ;
            }
        }
        break ;
    }
    k
}

/// What `STime::parse` decides for a text: the minute count, or the
/// exact error.  The text is split at colons; the first two parts must
/// be numerals fitting `u32`, further parts are ignored; the minutes
/// must stay below 60; and the whole count must fit `u32`.
pub open spec fn spec_stime_parse(s: Seq<char>) -> Result<int, ErrType> {
    let i1 = find_char(s, ':', 0);
    let hr_txt = s.subrange(0, i1);
    if !(is_numeral(hr_txt) && numeral_value(hr_txt) <= u32::MAX) {
        Err(ErrType::NotANumber)
    } else if i1 >= s.len() {
        Err(ErrType::MissingItem)
    } else {
        let i2 = find_char(s, ':', i1 + 1);
        let mn_txt = s.subrange(i1 + 1, i2);
        if !(is_numeral(mn_txt) && numeral_value(mn_txt) <= u32::MAX) {
            Err(ErrType::NotANumber)
        } else if numeral_value(mn_txt) >= 60 {
            Err(ErrType::MinutesOver60)
        } else if numeral_value(hr_txt) * 60 + numeral_value(mn_txt) > u32::MAX {
            Err(ErrType::NotANumber)
        } else {
            Ok(numeral_value(hr_txt) * 60 + numeral_value(mn_txt))
        }
    }
}

impl STime {
    /// The time `hr` hours and `min` minutes after 00:00.
    pub fn new(hr: u32, min: u32) -> (r: STime)
        requires
            hr * 60 + min <= u32::MAX,
        ensures
            r@ == hr * 60 + min,
    {
        STime(hr * 60 + min)
    }

    /// The same as [`STime::new`], refusing counts that do not fit.
    pub fn try_new(hr: u32, min: u32) -> (r: Option<STime>)
        ensures
            match r {
                Some(t) => hr * 60 + min <= u32::MAX && t@ == hr * 60 + min,
                None => hr * 60 + min > u32::MAX,
            },
    {
        if hr <= (u32::MAX - min) / 60 {
            Some(STime(hr * 60 + min))
        } else {
            None
        }
    }

    /// The sum of two times.
    pub fn plus(self, o: STime) -> (r: STime)
        requires
            self@ + o@ <= u32::MAX,
        ensures
            r@ == self@ + o@,
    {
        STime(self.0 + o.0)
    }

    /// The difference of two times.
    pub fn minus(self, o: STime) -> (r: STime)
        requires
            o@ <= self@,
        ensures
            r@ == self@ - o@,
    {
        STime(self.0 - o.0)
    }

    /// The time `b` before this one, stopping at 00:00 rather than
    /// going below it.
    pub fn earlier(&self, b: STime) -> (r: STime)
        ensures
            r@ == if b@ > self@ {
                0int
            } else {
                self@ - b@
            },
    {
        if b.0 > self.0 {
            return STime(0);
        }
        STime(self.0 - b.0)
    }

    /// The minutes elapsed from `then_time` on `then_date` to this time
    /// on `now_date`: each day between the dates adds 24 hours.
    pub fn since(&self, now_date: &Date, then_time: STime, then_date: &Date) -> (r: STime)
        requires
            now_date.valid(),
            then_date.valid(),
            spec_day_number(*then_date) <= spec_day_number(*now_date),
            self@ + 1440 * (spec_day_number(*now_date) - spec_day_number(*then_date))
                <= u32::MAX,
            then_time@ <= self@ + 1440 * (spec_day_number(*now_date) - spec_day_number(
                *then_date,
            )),
        ensures
            r@ == self@ + 1440 * (spec_day_number(*now_date) - spec_day_number(*then_date))
                - then_time@,
    {
        let days: i64 = now_date.day_number() - then_date.day_number();
        let total: u64 = (self.0 as u64) + 1440u64 * (days as u64);
        STime((total - (then_time.0 as u64)) as u32)
    }

    /// Reads a time written `HH:MM`, as [`spec_stime_parse`] decides it.
    pub fn parse(s: &str) -> (r: Result<STime, ErrType>)
        ensures
            match (r, spec_stime_parse(s@)) {
                (Ok(t), Ok(v)) => t@ == v,
                (Err(e), Err(ge)) => e == ge,
                _ => false,
            },
    {
        let len = s.unicode_len();
        let i1 = find_char_from(s, ':', 0);
        let hr_txt = s.substring_char(0, i1);
        let hr = match parse_u32(hr_txt) {
            Some(v) => v,
            None => {
                return Err(ErrType::NotANumber);
            },
        };
        if i1 >= len {
            return Err(ErrType::MissingItem);
        }
        let i2 = find_char_from(s, ':', i1 + 1);
        let mn_txt = s.substring_char(i1 + 1, i2);
        let mn = match parse_u32(mn_txt) {
            Some(v) => v,
            None => {
                return Err(ErrType::NotANumber);
            },
        };
        if mn >= 60 {
            return Err(ErrType::MinutesOver60);
        }
        match STime::try_new(hr, mn) {
            Some(t) => Ok(t),
            None => Err(ErrType::NotANumber),
        }
    }

    /// The time written `HH:MM`, both parts zero-padded to two places.
    pub fn to_hhmm(&self) -> (r: String)
        ensures
            r@ == spec_hhmm(self@),
    {
        let mut out = String::new();
        push_padded2(self.0 / 60, &mut out);
        proof {
            reveal_strlit(":");
            assert(":"@ =~= seq![':']);
        }
        out.append(":");
        push_padded2(self.0 % 60, &mut out);
        proof {
            assert(dec_padded2(self@ / 60) + seq![':'] + dec_padded2(self@ % 60) =~= (dec_padded2(
                self@ / 60,
            ) + seq![':']) + dec_padded2(self@ % 60));
        }
        out
    }
}

impl std::str::FromStr for STime {
    type Err = ErrType;

    fn from_str(s: &str) -> Result<STime, ErrType> {
        STime::parse(s)
    }
}

impl PartialOrd for STime {
    /// Times compare by their minute counts.
    fn partial_cmp(&self, other: &STime) -> (r: Option<std::cmp::Ordering>) {
        if self.0 < other.0 {
            Some(std::cmp::Ordering::Less)
        } else if self.0 > other.0 {
            Some(std::cmp::Ordering::Greater)
        } else {
            Some(std::cmp::Ordering::Equal)
        }
    }
}

impl vstd::std_specs::cmp::PartialOrdSpecImpl for STime {
    open spec fn obeys_partial_cmp_spec() -> bool {
        true
    }

    open spec fn partial_cmp_spec(&self, other: &STime) -> Option<std::cmp::Ordering> {
        if self@ < other@ {
            Some(std::cmp::Ordering::Less)
        } else if self@ > other@ {
            Some(std::cmp::Ordering::Greater)
        } else {
            Some(std::cmp::Ordering::Equal)
        }
    }
}

/// A date with a time of day, ordered by date first, then time.
#[derive(Debug, Clone, Copy, PartialEq, Eq, Structural)]
pub struct Moment {
    pub t: STime,
    pub d: Date,
}

/// A moment as the specification sees it: the date and the minute
/// count.
#[verifier::ext_equal]
pub struct GMoment {
    pub d: Date,
    pub t: int,
}

impl View for Moment {
    type V = GMoment;

    open spec fn view(&self) -> GMoment {
        GMoment { d: self.d, t: self.t@ }
    }
}

/// The text of a date, written `DD/MM/YYYY` with day and month padded
/// to two places.
pub open spec fn spec_date_text(d: Date) -> Seq<char> {
    dec_padded2(d.day as int) + seq!['/'] + dec_padded2(d.month as int) + seq!['/']
        + spec_i32_text(d.year as int)
}

/// How a moment reads relative to `now`: on the same date `today`, one
/// day earlier `yesterday`, otherwise the absolute date; always
/// followed by the time of day.
pub open spec fn spec_relative_text(m: Moment, now: Moment) -> Seq<char> {
    if m.d == now.d {
        "today : "@ + spec_hhmm(m.t@)
    } else if spec_day_number(m.d) + 1 == spec_day_number(now.d) {
        "yesterday : "@ + spec_hhmm(m.t@)
    } else {
        spec_date_text(m.d) + " : "@ + spec_hhmm(m.t@)
    }
}

impl Moment {
    pub fn new(d: Date, t: STime) -> (r: Moment)
        ensures
            r.d == d,
            r.t == t,
    {
        Moment { d, t }
    }

    /// The minutes elapsed from `prev` to this moment, each day between
    /// the dates adding 24 hours.
    pub fn time_since(&self, prev: &Moment) -> (r: STime)
        requires
            self.d.valid(),
            prev.d.valid(),
            spec_day_number(prev.d) <= spec_day_number(self.d),
            self.t@ + 1440 * (spec_day_number(self.d) - spec_day_number(prev.d)) <= u32::MAX,
            prev.t@ <= self.t@ + 1440 * (spec_day_number(self.d) - spec_day_number(prev.d)),
        ensures
            r@ == self.t@ + 1440 * (spec_day_number(self.d) - spec_day_number(prev.d))
                - prev.t@,
    {
        self.t.since(&self.d, prev.t, &prev.d)
    }

    /// The moment's text relative to `now`, as [`spec_relative_text`]
    /// lays it out.
    pub fn print_relative(&self, now: &Moment) -> (r: String)
        requires
            self.d.valid(),
            now.d.valid(),
        ensures
            r@ == spec_relative_text(*self, *now),
    {
        if self.d == now.d {
            proof {
                reveal_strlit("today : ");
            }
            let mut out = String::from_str("today : ");
            let hm = self.t.to_hhmm();
            out.append(hm.as_str());
            return out;
        }
        let dn_self = self.d.day_number();
        let dn_now = now.d.day_number();
        if dn_self + 1 == dn_now {
            proof {
                reveal_strlit("yesterday : ");
            }
            let mut out = String::from_str("yesterday : ");
            let hm = self.t.to_hhmm();
            out.append(hm.as_str());
            return out;
        }
        let mut out = String::new();
        push_padded2(self.d.day, &mut out);
        proof {
            reveal_strlit("/");
            assert("/"@ =~= seq!['/']);
            reveal_strlit(" : ");
        }
        out.append("/");
        push_padded2(self.d.month, &mut out);
        out.append("/");
        push_i32(self.d.year, &mut out);
        out.append(" : ");
        let hm = self.t.to_hhmm();
        out.append(hm.as_str());
        proof {
            assert(out@ =~= spec_relative_text(*self, *now));
        }
        out
    }
}

/// An optional default year, widened for the spec functions.
pub open spec fn spec_opt_year(def: Option<i32>) -> Option<int> {
    match def {
        Some(y) => Some(y as int),
        None => None,
    }
}

/// The date `y`-`m`-`d` when it lies in the calendar, `DateNotValid`
/// otherwise.
pub open spec fn spec_mk_date(y: int, m: int, d: int) -> Result<Date, ErrType>
    recommends
        i32::MIN <= y <= i32::MAX,
        0 <= m <= u32::MAX,
        0 <= d <= u32::MAX,
{
    if spec_valid_date(y, m, d) {
        Ok(Date { year: y as i32, month: m as u32, day: d as u32 })
    } else {
        Err(ErrType::DateNotValid)
    }
}

/// What `date_from_str` decides for a text and an optional default
/// year.  The text is split at `/` into day, month and an optional
/// year; when the year part is missing or unreadable the default year
/// stands in, if one was given.
pub open spec fn spec_date_from_str(s: Seq<char>, def_year: Option<int>) -> Result<
    Date,
    ErrType,
> {
    let i1 = find_char(s, '/', 0);
    let dd_txt = s.subrange(0, i1);
    if !(is_numeral(dd_txt) && numeral_value(dd_txt) <= u32::MAX) {
        Err(ErrType::NotANumber)
    } else if i1 >= s.len() {
        Err(ErrType::MissingItem)
    } else {
        let dd = numeral_value(dd_txt);
        let i2 = find_char(s, '/', i1 + 1);
        let mm_txt = s.subrange(i1 + 1, i2);
        if !(is_numeral(mm_txt) && numeral_value(mm_txt) <= u32::MAX) {
            Err(ErrType::NotANumber)
        } else {
            let mm = numeral_value(mm_txt);
            if i2 >= s.len() {
                match def_year {
                    Some(y) => spec_mk_date(y, mm, dd),
                    None => Err(ErrType::MissingItem),
                }
            } else {
                let i3 = find_char(s, '/', i2 + 1);
                let yr_txt = s.subrange(i2 + 1, i3);
                if is_int_numeral(yr_txt) && i32::MIN <= int_numeral_value(yr_txt) <= i32::MAX {
                    spec_mk_date(int_numeral_value(yr_txt), mm, dd)
                } else {
                    match def_year {
                        Some(y) => spec_mk_date(y, mm, dd),
                        None => Err(ErrType::NotANumber),
                    }
                }
            }
        }
    }
}

/// Builds the date `y`-`m`-`d` or reports `DateNotValid`.
fn mk_date(y: i32, m: u32, d: u32) -> (r: Result<Date, ErrType>)
    ensures
        r == spec_mk_date(y as int, m as int, d as int),
{
    match Date::from_ymd_opt(y, m, d) {
        Some(date) => Ok(date),
        None => Err(ErrType::DateNotValid),
    }
}

/// Reads a date written `DD/MM` or `DD/MM/YYYY`; with only two parts
/// the default year must supply the year.  Exactly
/// [`spec_date_from_str`].
pub fn date_from_str(s: &str, def_year: Option<i32>) -> (r: Result<Date, ErrType>)
    ensures
        r == spec_date_from_str(s@, spec_opt_year(def_year)),
{
    let len = s.unicode_len();
    let i1 = find_char_from(s, '/', 0);
    let dd = match parse_u32(s.substring_char(0, i1)) {
        Some(v) => v,
        None => {
            return Err(ErrType::NotANumber);
        },
    };
    if i1 >= len {
        return Err(ErrType::MissingItem);
    }
    let i2 = find_char_from(s, '/', i1 + 1);
    let mm = match parse_u32(s.substring_char(i1 + 1, i2)) {
        Some(v) => v,
        None => {
            return Err(ErrType::NotANumber);
        },
    };
    if i2 >= len {
        return match def_year {
            Some(y) => mk_date(y, mm, dd),
            None => Err(ErrType::MissingItem),
        };
    }
    let i3 = find_char_from(s, '/', i2 + 1);
    match parse_i32(s.substring_char(i2 + 1, i3)) {
        Some(y) => mk_date(y, mm, dd),
        None => match def_year {
            Some(y) => mk_date(y, mm, dd),
            None => Err(ErrType::NotANumber),
        },
    }
}

/// What `month_yr_from_str` decides: a month and an optional year,
/// split at `/`, giving the first day of that month.
pub open spec fn spec_month_yr_from_str(s: Seq<char>, def_year: Option<int>) -> Result<
    Date,
    ErrType,
> {
    let i1 = find_char(s, '/', 0);
    let mm_txt = s.subrange(0, i1);
    if !(is_numeral(mm_txt) && numeral_value(mm_txt) <= u32::MAX) {
        Err(ErrType::NotANumber)
    } else {
        let mm = numeral_value(mm_txt);
        if i1 >= s.len() {
            match def_year {
                Some(y) => spec_mk_date(y, mm, 1),
                None => Err(ErrType::MissingItem),
            }
        } else {
            let i2 = find_char(s, '/', i1 + 1);
            let yr_txt = s.subrange(i1 + 1, i2);
            if is_int_numeral(yr_txt) && i32::MIN <= int_numeral_value(yr_txt) <= i32::MAX {
                spec_mk_date(int_numeral_value(yr_txt), mm, 1)
            } else {
                match def_year {
                    Some(y) => spec_mk_date(y, mm, 1),
                    None => Err(ErrType::NotANumber),
                }
            }
        }
    }
}

/// Reads a month written `MM` or `MM/YYYY` into the first day of that
/// month; with one part the default year must supply the year.
pub fn month_yr_from_str(s: &str, def_year: Option<i32>) -> (r: Result<Date, ErrType>)
    ensures
        r == spec_month_yr_from_str(s@, spec_opt_year(def_year)),
{
    let len = s.unicode_len();
    let i1 = find_char_from(s, '/', 0);
    let mm = match parse_u32(s.substring_char(0, i1)) {
        Some(v) => v,
        None => {
            return Err(ErrType::NotANumber);
        },
    };
    if i1 >= len {
        return match def_year {
            Some(y) => mk_date(y, mm, 1),
            None => Err(ErrType::MissingItem),
        };
    }
    let i2 = find_char_from(s, '/', i1 + 1);
    match parse_i32(s.substring_char(i1 + 1, i2)) {
        Some(y) => mk_date(y, mm, 1),
        None => match def_year {
            Some(y) => mk_date(y, mm, 1),
            None => Err(ErrType::NotANumber),
        },
    }
}

/// How many ISO weeks a year has: 53 when its 1 January falls on a
/// Thursday, or on a Wednesday of a leap year; otherwise 52.
pub open spec fn spec_iso_weeks_in_year(y: int) -> int
    recommends
        i32::MIN <= y <= i32::MAX,
{
    let wd1 = spec_weekday_mon0(Date { year: y as i32, month: 1, day: 1 });
    if wd1 == 3 || (spec_is_leap_year(y) && wd1 == 2) {
        53
    } else {
        52
    }
}

/// The Monday of ISO week `w` of year `y`: week 1 is the week holding
/// 4 January, and weeks begin on Monday.
pub open spec fn spec_iso_week_start(y: int, w: int) -> Date
    recommends
        i32::MIN + 500 <= y <= i32::MAX - 500,
        1 <= w <= spec_iso_weeks_in_year(y),
{
    let jan4 = Date { year: y as i32, month: 1, day: 4 };
    spec_plus_days(spec_minus_days(jan4, spec_weekday_mon0(jan4)), 7 * (w - 1))
}

/// The Monday starting ISO week `w` of year `y`, when the week exists
/// and the year leaves room for the week arithmetic; `DateNotValid`
/// otherwise.
pub open spec fn spec_mk_week(y: int, w: int) -> Result<Date, ErrType> {
    if i32::MIN + 500 <= y <= i32::MAX - 500 && 1 <= w <= spec_iso_weeks_in_year(y) {
        Ok(spec_iso_week_start(y, w))
    } else {
        Err(ErrType::DateNotValid)
    }
}

/// How many ISO weeks a year has.
#[verifier::spinoff_prover]
fn iso_weeks_in_year(y: i32) -> (r: u32)
    ensures
        r == spec_iso_weeks_in_year(y as int),
        52 <= r <= 53,
{
    let jan1 = Date { year: y, month: 1, day: 1 };
    let wd1 = weekday_mon0(&jan1);
    if wd1 == 3 || (is_leap_year(y) && wd1 == 2) {
        53
    } else {
        52
    }
}

/// The Monday starting an existing ISO week.
#[verifier::spinoff_prover]
fn iso_week_start(y: i32, w: u32) -> (r: Date)
    requires
        i32::MIN + 500 <= y <= i32::MAX - 500,
        1 <= w <= 53,
    ensures
        r == spec_iso_week_start(y as int, w as int),
{
    let jan4 = Date { year: y, month: 1, day: 4 };
    let wd = weekday_mon0(&jan4);
    let start = minus_days(&jan4, wd);
    plus_days(&start, 7 * (w - 1))
}

/// Builds the Monday of ISO week `w` of year `y`, or reports
/// `DateNotValid`.
#[verifier::spinoff_prover]
fn mk_week(y: i32, w: u32) -> (r: Result<Date, ErrType>)
    ensures
        r == spec_mk_week(y as int, w as int),
{
    if y < i32::MIN + 500 || y > i32::MAX - 500 {
        return Err(ErrType::DateNotValid);
    }
    let weeks = iso_weeks_in_year(y);
    if w < 1 || w > weeks {
        return Err(ErrType::DateNotValid);
    }
    Ok(iso_week_start(y, w))
}

/// What `week_yr_from_str` decides: an ISO week and an optional year,
/// split at `/`, giving the Monday starting that week.
pub open spec fn spec_week_yr_from_str(s: Seq<char>, def_year: Option<int>) -> Result<
    Date,
    ErrType,
> {
    let i1 = find_char(s, '/', 0);
    let wk_txt = s.subrange(0, i1);
    if !(is_numeral(wk_txt) && numeral_value(wk_txt) <= u32::MAX) {
        Err(ErrType::NotANumber)
    } else {
        let wk = numeral_value(wk_txt);
        if i1 >= s.len() {
            match def_year {
                Some(y) => spec_mk_week(y, wk),
                None => Err(ErrType::MissingItem),
            }
        } else {
            let i2 = find_char(s, '/', i1 + 1);
            let yr_txt = s.subrange(i1 + 1, i2);
            if is_int_numeral(yr_txt) && i32::MIN <= int_numeral_value(yr_txt) <= i32::MAX {
                spec_mk_week(int_numeral_value(yr_txt), wk)
            } else {
                match def_year {
                    Some(y) => spec_mk_week(y, wk),
                    None => Err(ErrType::NotANumber),
                }
            }
        }
    }
}

/// Reads an ISO week written `WW` or `WW/YYYY` into the Monday starting
/// that week; with one part the default year must supply the year.
pub fn week_yr_from_str(s: &str, def_year: Option<i32>) -> (r: Result<Date, ErrType>)
    ensures
        r == spec_week_yr_from_str(s@, spec_opt_year(def_year)),
{
    let len = s.unicode_len();
    let i1 = find_char_from(s, '/', 0);
    let wk = match parse_u32(s.substring_char(0, i1)) {
        Some(v) => v,
        None => {
            return Err(ErrType::NotANumber);
        },
    };
    if i1 >= len {
        return match def_year {
            Some(y) => mk_week(y, wk),
            None => Err(ErrType::MissingItem),
        };
    }
    let i2 = find_char_from(s, '/', i1 + 1);
    match parse_i32(s.substring_char(i1 + 1, i2)) {
        Some(y) => mk_week(y, wk),
        None => match def_year {
            Some(y) => mk_week(y, wk),
            None => Err(ErrType::NotANumber),
        },
    }
}

/// The first day of the month that the original's month arithmetic
/// selects as the range start before `dt`: the same month, except that
/// December steps the year back by one.
pub fn prev_month_start(dt: &Date) -> (r: Date)
    requires
        dt.valid(),
        dt.year > i32::MIN,
    ensures
        r.day == 1,
        r.month == dt.month,
        r.year == if dt.month == 12 {
            dt.year - 1
        } else {
            dt.year as int
        },
        r.valid(),
{
    Date { year: dt.year - ((dt.month / 12) as i32), month: dt.month, day: 1 }
}

/// The first day of the month after `dt`'s month.
pub fn next_month_start(dt: &Date) -> (r: Date)
    requires
        dt.valid(),
        dt.year < i32::MAX,
    ensures
        r.day == 1,
        r.month == if dt.month == 12 {
            1int
        } else {
            dt.month + 1
        },
        r.year == if dt.month == 12 {
            dt.year + 1
        } else {
            dt.year as int
        },
        r.valid(),
{
    Date { year: dt.year + ((dt.month / 12) as i32), month: (dt.month % 12) + 1, day: 1 }
}

impl PartialOrd for Moment {
    /// Moments compare by date, then by time of day.
    fn partial_cmp(&self, other: &Moment) -> (r: Option<std::cmp::Ordering>) {
        if self.d.year < other.d.year {
            Some(std::cmp::Ordering::Less)
        } else if self.d.year > other.d.year {
            Some(std::cmp::Ordering::Greater)
        } else if self.d.month < other.d.month {
            Some(std::cmp::Ordering::Less)
        } else if self.d.month > other.d.month {
            Some(std::cmp::Ordering::Greater)
        } else if self.d.day < other.d.day {
            Some(std::cmp::Ordering::Less)
        } else if self.d.day > other.d.day {
            Some(std::cmp::Ordering::Greater)
        } else if self.t.0 < other.t.0 {
            Some(std::cmp::Ordering::Less)
        } else if self.t.0 > other.t.0 {
            Some(std::cmp::Ordering::Greater)
        } else {
            Some(std::cmp::Ordering::Equal)
        }
    }
}

impl vstd::std_specs::cmp::PartialOrdSpecImpl for Moment {
    open spec fn obeys_partial_cmp_spec() -> bool {
        true
    }

    open spec fn partial_cmp_spec(&self, other: &Moment) -> Option<std::cmp::Ordering> {
        if self.d.year < other.d.year {
            Some(std::cmp::Ordering::Less)
        } else if self.d.year > other.d.year {
            Some(std::cmp::Ordering::Greater)
        } else if self.d.month < other.d.month {
            Some(std::cmp::Ordering::Less)
        } else if self.d.month > other.d.month {
            Some(std::cmp::Ordering::Greater)
        } else if self.d.day < other.d.day {
            Some(std::cmp::Ordering::Less)
        } else if self.d.day > other.d.day {
            Some(std::cmp::Ordering::Greater)
        } else if self.t@ < other.t@ {
            Some(std::cmp::Ordering::Less)
        } else if self.t@ > other.t@ {
            Some(std::cmp::Ordering::Greater)
        } else {
            Some(std::cmp::Ordering::Equal)
        }
    }
}

} // verus!
