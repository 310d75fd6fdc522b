//! Proleptic Gregorian calendar dates, as `chrono::NaiveDate` counts them.

use chrono::{Datelike, NaiveDate};
use vstd::prelude::*;

verus! {

/// The earliest year that `chrono::NaiveDate` can represent.
pub const MIN_YEAR: i32 = -262143;

/// The latest year that `chrono::NaiveDate` can represent.
pub const MAX_YEAR: i32 = 262142;

/// Gregorian leap year rule.
pub open spec fn is_leap_year(y: int) -> bool {
    y % 4 == 0 && (y % 100 != 0 || y % 400 == 0)
}

/// Number of days in month `m` of year `y`.
pub open spec fn days_in_month(y: int, m: int) -> int {
    if m == 2 {
        if is_leap_year(y) {
            29
        } else {
            28
        }
    } else if m == 4 || m == 6 || m == 9 || m == 11 {
        30
    } else {
        31
    }
}

/// Number of days in year `y`.
pub open spec fn days_in_year(y: int) -> int {
    if is_leap_year(y) {
        366
    } else {
        365
    }
}

/// Number of days of year `y` that precede the first day of month `m`.
pub open spec fn days_before_month(y: int, m: int) -> int {
    let leap: int = if is_leap_year(y) {
        1
    } else {
        0
    };
    if m <= 1 {
        0
    } else if m == 2 {
        31
    } else if m == 3 {
        59 + leap
    } else if m == 4 {
        90 + leap
    } else if m == 5 {
        120 + leap
    } else if m == 6 {
        151 + leap
    } else if m == 7 {
        181 + leap
    } else if m == 8 {
        212 + leap
    } else if m == 9 {
        243 + leap
    } else if m == 10 {
        273 + leap
    } else if m == 11 {
        304 + leap
    } else {
        334 + leap
    }
}

/// Number of days from January 1 of year 1 to January 1 of year `y` (negative before year 1).
pub open spec fn days_before_year(y: int) -> int {
    365 * (y - 1) + (y - 1) / 4 - (y - 1) / 100 + (y - 1) / 400
}

/// Whether `(y, m, d)` names a date that `chrono::NaiveDate` can represent.
pub open spec fn is_valid_ymd(y: int, m: int, d: int) -> bool {
    &&& MIN_YEAR <= y <= MAX_YEAR
    &&& 1 <= m <= 12
    &&& 1 <= d <= days_in_month(y, m)
}

/// A calendar date in the proleptic Gregorian calendar.
#[derive(Clone, Copy, Debug, PartialEq, Eq, Hash, Structural)]
pub struct Date {
    pub year: i32,
    pub month: u32,
    pub day: u32,
}

impl Date {
    /// The date is a real calendar date within the range of `chrono::NaiveDate`.
    pub open spec fn wf(self) -> bool {
        is_valid_ymd(self.year as int, self.month as int, self.day as int)
    }

    /// Day number: January 1 of year 1 is day 1, as in `Datelike::num_days_from_ce`.
    pub open spec fn day_number(self) -> int {
        days_before_year(self.year as int) + days_before_month(self.year as int, self.month as int)
            + self.day
    }

    /// Chronological order of dates (lexicographic on year, month, day).
    pub open spec fn lt(self, other: Date) -> bool {
        ||| self.year < other.year
        ||| self.year == other.year && self.month < other.month
        ||| self.year == other.year && self.month == other.month && self.day < other.day
    }

    pub open spec fn le(self, other: Date) -> bool {
        self.lt(other) || self == other
    }

    /// Months elapsed since month 1 of year 0, counting this date's month.
    pub open spec fn month_index(self) -> int {
        self.year * 12 + self.month
    }

    /// The date is the last day of its month and has a successor that `chrono` can represent.
    pub open spec fn is_month_end(self) -> bool {
        &&& self.day == days_in_month(self.year as int, self.month as int)
        &&& !(self.year == MAX_YEAR && self.month == 12)
    }

    /// The calendar day after this one, if `chrono` can represent it.
    pub open spec fn succ(self) -> Option<Date> {
        if self.day < days_in_month(self.year as int, self.month as int) {
            Some(Date { year: self.year, month: self.month, day: (self.day + 1) as u32 })
        } else if self.month < 12 {
            Some(Date { year: self.year, month: (self.month + 1) as u32, day: 1 })
        } else if self.year < MAX_YEAR {
            Some(Date { year: (self.year + 1) as i32, month: 1, day: 1 })
        } else {
            None
        }
    }
}


/// Going from `y - 1` to `y`, the count of multiples of `d` goes up by one exactly when `y` is
/// a multiple of `d`.
proof fn lemma_div_step(y: int, d: int)
    requires
        d > 0,
    ensures
        y / d - (y - 1) / d == if y % d == 0 {
            1int
        } else {
            0int
        },
{
    let q1 = y / d;
    let q2 = (y - 1) / d;
    let r1 = y % d;
    let r2 = (y - 1) % d;
    vstd::arithmetic::div_mod::lemma_fundamental_div_mod(y, d);
    vstd::arithmetic::div_mod::lemma_fundamental_div_mod(y - 1, d);
    vstd::arithmetic::div_mod::lemma_mod_bound(y, d);
    vstd::arithmetic::div_mod::lemma_mod_bound(y - 1, d);
    assert(q1 - q2 == if r1 == 0 { 1int } else { 0int }) by (nonlinear_arith)
        requires
            d > 0,
            y == d * q1 + r1,
            y - 1 == d * q2 + r2,
            0 <= r1 < d,
            0 <= r2 < d,
    {
        if q1 - q2 >= 2 {
            assert(d * (q1 - q2) >= 2 * d);
        } else if q1 - q2 <= -1 {
            assert(d * (q1 - q2) <= -d);
        } else if q1 - q2 == 1 {
            assert(d * (q1 - q2) == d);
        } else {
            assert(d * (q1 - q2) == 0);
        }
    }
}

/// A multiple of 400 is a multiple of 100, and a multiple of 100 is a multiple of 4.
proof fn lemma_leap_divisors(y: int)
    ensures
        y % 400 == 0 ==> y % 100 == 0,
        y % 100 == 0 ==> y % 4 == 0,
{
    vstd::arithmetic::div_mod::lemma_fundamental_div_mod(y, 400);
    vstd::arithmetic::div_mod::lemma_fundamental_div_mod(y, 100);
    vstd::arithmetic::div_mod::lemma_fundamental_div_mod(y, 4);
}

/// Consecutive years are `days_in_year` days apart.
pub proof fn lemma_days_before_next_year(y: int)
    ensures
        days_before_year(y + 1) == days_before_year(y) + days_in_year(y),
{
    lemma_div_step(y, 4);
    lemma_div_step(y, 100);
    lemma_div_step(y, 400);
    lemma_leap_divisors(y);
}


/// Later years start later: year `y1` ends no later than year `y2` begins.
pub proof fn lemma_days_before_year_monotone(y1: int, y2: int)
    requires
        y1 < y2,
    ensures
        days_before_year(y1) + days_in_year(y1) <= days_before_year(y2),
    decreases y2 - y1,
{
    lemma_days_before_next_year(y1);
    if y1 + 1 < y2 {
        lemma_days_before_year_monotone(y1 + 1, y2);
    }
}

/// A valid date's day of year lies within its year.
pub proof fn lemma_ordinal_bounds(d: Date)
    requires
        d.wf(),
    ensures
        1 <= days_before_month(d.year as int, d.month as int) + d.day <= days_in_year(
            d.year as int,
        ),
{
}

/// The day number grows strictly with the chronological order of dates.
pub proof fn lemma_day_number_monotone(a: Date, b: Date)
    requires
        a.wf(),
        b.wf(),
        a.lt(b),
    ensures
        a.day_number() < b.day_number(),
{
    lemma_ordinal_bounds(a);
    lemma_ordinal_bounds(b);
    if a.year < b.year {
        lemma_days_before_year_monotone(a.year as int, b.year as int);
    }
}

/// Chronological order of valid dates is the order of their day numbers.
pub proof fn lemma_lt_iff_day_number(a: Date, b: Date)
    requires
        a.wf(),
        b.wf(),
    ensures
        a.lt(b) <==> a.day_number() < b.day_number(),
        a == b <==> a.day_number() == b.day_number(),
{
    if a.lt(b) {
        lemma_day_number_monotone(a, b);
    } else if b.lt(a) {
        lemma_day_number_monotone(b, a);
    }
}

/// Day numbers of representable dates fit comfortably in an `i32`.
pub proof fn lemma_day_number_bounds(d: Date)
    requires
        d.wf(),
    ensures
        -100_000_000 < d.day_number() < 100_000_000,
{
    lemma_ordinal_bounds(d);
    let a = d.year - 1;
    vstd::arithmetic::div_mod::lemma_fundamental_div_mod(a as int, 4);
    vstd::arithmetic::div_mod::lemma_fundamental_div_mod(a as int, 100);
    vstd::arithmetic::div_mod::lemma_fundamental_div_mod(a as int, 400);
}


/// Year reached by going back `k` months from month `m` of year `y`.
pub open spec fn year_months_back(y: int, m: int, k: int) -> int {
    (y * 12 + m - 1 - k) / 12
}

/// Month reached by going back `k` months from month `m` of year `y`.
pub open spec fn month_months_back(y: int, m: int, k: int) -> int {
    (y * 12 + m - 1 - k) % 12 + 1
}

impl Date {
    /// The date `k` months earlier: the same day of month, clamped to the length of the target
    /// month, or the last day of the target month when `eom_rule` holds and this date is a month end.
    pub open spec fn stepped_back(self, k: int, eom_rule: bool) -> Date {
        let y = year_months_back(self.year as int, self.month as int, k);
        let m = month_months_back(self.year as int, self.month as int, k);
        let dim = days_in_month(y, m);
        let d = if eom_rule && self.is_month_end() {
            dim
        } else if self.day <= dim {
            self.day as int
        } else {
            dim
        };
        Date { year: y as i32, month: m as u32, day: d as u32 }
    }
}

/// Calls `chrono::NaiveDate::from_ymd_opt` and reports whether it gave a date. chrono accepts
/// exactly the proleptic Gregorian dates from January 1 of `MIN_YEAR` to December 31 of `MAX_YEAR`.
#[verifier::external_body]
fn chrono_from_ymd_is_some(year: i32, month: u32, day: u32) -> (res: bool)
    ensures
        res == is_valid_ymd(year as int, month as int, day as int),
{
    NaiveDate::from_ymd_opt(year, month, day).is_some()
}

/// Calls `(end - start).num_days()` on the `chrono::NaiveDate`s of two dates, that is
/// `NaiveDate::signed_duration_since`: the signed number of days between them, which is the
/// difference of their day numbers (`Datelike::num_days_from_ce`).
#[verifier::external_body]
fn chrono_signed_days(end: &Date, start: &Date) -> (res: i64)
    requires
        end.wf(),
        start.wf(),
    ensures
        res == end.day_number() - start.day_number(),
{
    let e = NaiveDate::from_ymd_opt(end.year, end.month, end.day).unwrap();
    let s = NaiveDate::from_ymd_opt(start.year, start.month, start.day).unwrap();
    (e - s).num_days()
}

/// Calls `chrono::NaiveDate::succ_opt`: the next calendar day, or `None` after the last date
/// that chrono can represent.
#[verifier::external_body]
fn chrono_succ(date: &Date) -> (res: Option<Date>)
    requires
        date.wf(),
    ensures
        res == date.succ(),
{
    NaiveDate::from_ymd_opt(date.year, date.month, date.day).unwrap().succ_opt().map(
        |n| Date { year: n.year(), month: n.month(), day: n.day() },
    )
}

/// Calls `chrono::NaiveDate::leap_year`: whether the date's year is a Gregorian leap year.
#[verifier::external_body]
fn chrono_leap_year(date: &Date) -> (res: bool)
    requires
        date.wf(),
    ensures
        res == is_leap_year(date.year as int),
{
    NaiveDate::from_ymd_opt(date.year, date.month, date.day).unwrap().leap_year()
}

impl Date {
    /// The date `year-month-day`, or `None` where no such date exists in chrono's range.
    pub fn from_ymd_opt(year: i32, month: u32, day: u32) -> (res: Option<Date>)
        ensures
            res is Some <==> is_valid_ymd(year as int, month as int, day as int),
            res matches Some(d) ==> d == (Date { year, month, day }),
    {
        if chrono_from_ymd_is_some(year, month, day) {
            Some(Date { year, month, day })
        } else {
            None
        }
    }

    /// Whether this date comes strictly before `other`.
    pub fn is_before(&self, other: &Date) -> (res: bool)
        ensures
            res == self.lt(*other),
    {
        self.year < other.year || (self.year == other.year && (self.month < other.month || (
        self.month == other.month && self.day < other.day)))
    }

    /// Whether this date comes on or before `other`.
    pub fn is_on_or_before(&self, other: &Date) -> (res: bool)
        ensures
            res == self.le(*other),
    {
        self.is_before(other) || (self.year == other.year && self.month == other.month
            && self.day == other.day)
    }

    /// Whether the next calendar day is the first of a month, as decided by chrono's successor
    /// (the last representable date has none and counts as no month end).
    pub fn is_month_end_date(&self) -> (res: bool)
        requires
            self.wf(),
        ensures
            res == self.is_month_end(),
    {
        let next = match chrono_succ(self) {
            Some(n) => n,
            None => *self,
        };
        next.day == 1
    }

    /// Whether the date's year is a leap year.
    pub fn is_leap_year(&self) -> (res: bool)
        requires
            self.wf(),
        ensures
            res == is_leap_year(self.year as int),
    {
        chrono_leap_year(self)
    }

    /// Signed number of days from this date to `end`.
    pub fn days_until(&self, end: &Date) -> (res: i64)
        requires
            self.wf(),
            end.wf(),
        ensures
            res == end.day_number() - self.day_number(),
            -200_000_000 < res < 200_000_000,
    {
        proof {
            lemma_day_number_bounds(*self);
            lemma_day_number_bounds(*end);
        }
        chrono_signed_days(end, self)
    }

    /// Goes back `months` months: the same day of month where the target month has it, else the
    /// last day of the target month; with `eom_rule`, a month-end date lands on a month end.
    pub fn step_months_backward(&self, months: u32, eom_rule: bool) -> (res: Date)
        requires
            self.wf(),
            months <= 12,
            year_months_back(self.year as int, self.month as int, months as int) >= MIN_YEAR,
        ensures
            res == self.stepped_back(months as int, eom_rule),
            res.wf(),
    {
        let ghost total: int = self.year * 12 + self.month - 1 - months;
        let mut year: i32 = self.year;
        let mut month: i32 = self.month as i32 - months as i32;
        while month <= 0
            invariant
                year * 12 + month - 1 == total,
                -12 < month <= 12,
                year == self.year || (year == self.year - 1 && month > 0),
                self.wf(),
            decreases 12 - month,
        {
            year = year - 1;
            month = month + 12;
        }
        proof {
            vstd::arithmetic::div_mod::lemma_fundamental_div_mod_converse(
                total,
                12,
                year as int,
                month - 1,
            );
        }
        let month: u32 = month as u32;
        let mut day: u32 = self.day;
        let ghost dim = days_in_month(year as int, month as int);
        loop
            invariant
                1 <= day <= self.day,
                self.day > dim ==> day >= dim,
                self.day <= dim ==> day == self.day,
                year == year_months_back(self.year as int, self.month as int, months as int),
                month == month_months_back(self.year as int, self.month as int, months as int),
                dim == days_in_month(year as int, month as int),
                MIN_YEAR <= year <= MAX_YEAR,
                1 <= month <= 12,
                self.wf(),
            decreases day,
        {
            if chrono_from_ymd_is_some(year, month, day) {
                if eom_rule && self.is_month_end_date() {
                    let mut eom_day: u32 = 31;
                    loop
                        invariant
                            dim <= eom_day <= 31,
                            dim == days_in_month(year as int, month as int),
                            year == year_months_back(self.year as int, self.month as int, months as int),
                            month == month_months_back(self.year as int, self.month as int, months as int),
                            MIN_YEAR <= year <= MAX_YEAR,
                            1 <= month <= 12,
                            eom_rule && self.is_month_end(),
                        decreases eom_day,
                    {
                        if chrono_from_ymd_is_some(year, month, eom_day) {
                            return Date { year, month, day: eom_day };
                        }
                        eom_day = eom_day - 1;
                    }
                }
                return Date { year, month, day };
            }
            day = day - 1;
        }
    }
}

/// Going back between one and twelve months lands in the same or the previous year, on an
/// earlier month.
pub proof fn lemma_stepped_back(d: Date, k: int, eom_rule: bool)
    requires
        1 <= d.month <= 12,
        0 <= k <= 12,
    ensures
        d.year - 1 <= year_months_back(d.year as int, d.month as int, k) <= d.year,
        1 <= month_months_back(d.year as int, d.month as int, k) <= 12,
        year_months_back(d.year as int, d.month as int, k) * 12 + month_months_back(
            d.year as int,
            d.month as int,
            k,
        ) == d.month_index() - k,
        d.wf() && year_months_back(d.year as int, d.month as int, k) >= MIN_YEAR ==> d.stepped_back(
            k,
            eom_rule,
        ).wf(),
        d.wf() && year_months_back(d.year as int, d.month as int, k) >= MIN_YEAR ==> d.stepped_back(
            k,
            eom_rule,
        ).month_index() == d.month_index() - k,
        d.wf() && year_months_back(d.year as int, d.month as int, k) >= MIN_YEAR && k >= 1
            ==> d.stepped_back(k, eom_rule).lt(d),
{
    let t = d.year * 12 + d.month - 1 - k;
    vstd::arithmetic::div_mod::lemma_fundamental_div_mod(t, 12);
}

#[verifier::external_type_specification]
#[verifier::external_body]
pub struct ExParseError(chrono::format::ParseError);

/// The date that `chrono::NaiveDate::parse_from_str` reads from `text` with the format
/// `fmt`, if any.
pub uninterp spec fn chrono_parsed_date(text: Seq<char>, fmt: Seq<char>) -> Option<Date>;

/// Calls `chrono::NaiveDate::parse_from_str(text, fmt)`. Which strings chrono accepts for a
/// format is named `chrono_parsed_date`, not restated; a date it gives is always a
/// representable calendar date.
#[verifier::external_body]
fn chrono_parse_from_str(text: &str, fmt: &str) -> (res: Result<Date, chrono::format::ParseError>)
    ensures
        res is Ok <==> chrono_parsed_date(text@, fmt@) is Some,
        res matches Ok(d) ==> chrono_parsed_date(text@, fmt@) == Some(d) && d.wf(),
{
    NaiveDate::parse_from_str(text, fmt).map(|n| Date { year: n.year(), month: n.month(), day: n.day() })
}

impl Date {
    /// Reads a date written `YYYY-MM-DD` (chrono's `%Y-%m-%d`), or gives chrono's reason why
    /// the text is no such date.
    pub fn parse_iso(text: &str) -> (res: Result<Date, chrono::format::ParseError>)
        ensures
            res is Ok <==> chrono_parsed_date(text@, "%Y-%m-%d"@) is Some,
            res matches Ok(d) ==> chrono_parsed_date(text@, "%Y-%m-%d"@) == Some(d) && d.wf(),
    {
        chrono_parse_from_str(text, "%Y-%m-%d")
    }
}

} // verus!
