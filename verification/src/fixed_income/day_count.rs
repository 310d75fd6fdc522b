//! Day count conventions: how many days lie between two dates, and the fraction of a year
//! that the period covers.
//!
//! A year fraction is returned as an exact [`YearFraction`]: the integers whose floating
//! point quotient is the conventional year fraction.

use crate::fixed_income::calendar::{
    Date, MAX_YEAR, days_in_month, is_leap_year, lemma_day_number_bounds,
    lemma_day_number_monotone, lemma_lt_iff_day_number,
};
use crate::text::str_equals;
use vstd::prelude::*;

verus! {

/// Day count conventions.
#[derive(Clone, Copy, Debug, PartialEq, Eq, Hash, Structural)]
pub enum DayCount {
    /// Actual/365 Fixed.
    Act365F,
    /// Actual/360.
    Act360,
    /// 30/360 US (NASD rules for February month ends).
    Thirty360US,
    /// 30E/360 (Eurobond basis).
    Thirty360E,
    /// Actual/Actual ISDA: each calendar year's share counted on its own basis.
    ActActISDA,
    /// Actual/Actual ICMA: needs the regular coupon period as a reference.
    ActActICMA,
}

/// Days of one calendar year counted over that year's basis (365 or 366).
#[derive(Clone, Copy, Debug, PartialEq, Eq)]
pub struct YearPiece {
    pub days: u32,
    pub basis: u32,
}

/// An exact year fraction.
#[derive(Clone, Debug, PartialEq)]
pub enum YearFraction {
    /// The empty period: the fraction is zero.
    Zero,
    /// `days / basis`.
    Ratio { days: u32, basis: u32 },
    /// The sum, in order, of `days / basis` over the pieces of the period that fall in
    /// successive calendar years.
    YearPieces(Vec<YearPiece>),
    /// `(days_held / days_in_period) / frequency`.
    Icma { days_held: i64, days_in_period: i64, frequency: u32 },
    /// No fraction is defined (Actual/Actual ICMA without a reference period); not a number.
    Undefined,
}

/// The day of month that 30/360 US counts for the start date.
pub open spec fn us_start_day(start: Date) -> int {
    if start.month == 2 && start.is_month_end() || start.day == 31 {
        30
    } else {
        start.day as int
    }
}

/// The day of month that 30/360 US counts for the end date.
pub open spec fn us_end_day(start: Date, end: Date) -> int {
    let start_feb_end = start.month == 2 && start.is_month_end();
    let end_feb_end = end.month == 2 && end.is_month_end();
    let d1 = if start_feb_end {
        30
    } else {
        start.day as int
    };
    let d2 = if start_feb_end && end_feb_end {
        30
    } else {
        end.day as int
    };
    if d2 == 31 && d1 >= 30 {
        30
    } else {
        d2
    }
}

/// 30/360 US day count between two dates.
pub open spec fn thirty_360_us(start: Date, end: Date) -> int {
    360 * (end.year - start.year) + 30 * (end.month - start.month) + (us_end_day(start, end)
        - us_start_day(start))
}

/// 30E/360 day count between two dates.
pub open spec fn thirty_360_e(start: Date, end: Date) -> int {
    let d1: int = if start.day == 31 {
        30
    } else {
        start.day as int
    };
    let d2: int = if end.day == 31 {
        30
    } else {
        end.day as int
    };
    360 * (end.year - start.year) + 30 * (end.month - start.month) + (d2 - d1)
}

/// Actual number of days between two dates.
pub open spec fn actual_days(start: Date, end: Date) -> int {
    end.day_number() - start.day_number()
}

/// The day count of a convention: zero unless `start` comes before `end`.
pub open spec fn day_count_of(dc: DayCount, start: Date, end: Date) -> int {
    if !start.lt(end) {
        0
    } else {
        match dc {
            DayCount::Thirty360US => thirty_360_us(start, end),
            DayCount::Thirty360E => thirty_360_e(start, end),
            _ => actual_days(start, end),
        }
    }
}

/// January 1 of the year after `d`'s year.
pub open spec fn next_new_year(d: Date) -> Date {
    Date { year: (d.year + 1) as i32, month: 1, day: 1 }
}

/// The pieces of `[current, end)` that fall in successive calendar years.
pub open spec fn isda_pieces(current: Date, end: Date) -> Seq<YearPiece>
    decreases end.year - current.year,
{
    if !current.lt(end) {
        Seq::empty()
    } else {
        let year_end = next_new_year(current);
        let basis: u32 = if is_leap_year(current.year as int) {
            366
        } else {
            365
        };
        if end.le(year_end) || end.year <= current.year {
            seq![YearPiece { days: actual_days(current, end) as u32, basis }]
        } else {
            seq![YearPiece { days: actual_days(current, year_end) as u32, basis }] + isda_pieces(
                year_end,
                end,
            )
        }
    }
}

/// Total days of a sequence of year pieces.
pub open spec fn pieces_days(pieces: Seq<YearPiece>) -> int
    decreases pieces.len(),
{
    if pieces.len() == 0 {
        0
    } else {
        pieces[0].days + pieces_days(pieces.drop_first())
    }
}

/// Actual/Actual ISDA is defined up to the first day of the last year chrono can represent.
pub open spec fn isda_end_in_range(end: Date) -> bool {
    end.le(Date { year: MAX_YEAR, month: 1, day: 1 })
}

/// A year fraction has the value of a convention's fraction from `start` to `end`.
pub open spec fn is_year_fraction_of(res: YearFraction, dc: DayCount, start: Date, end: Date) -> bool {
    if !start.lt(end) {
        res is Zero
    } else {
        match dc {
            DayCount::Act365F => res == YearFraction::Ratio {
                days: day_count_of(dc, start, end) as u32,
                basis: 365,
            },
            DayCount::ActActISDA => res matches YearFraction::YearPieces(v) && v@ == isda_pieces(
                start,
                end,
            ),
            DayCount::ActActICMA => res is Undefined,
            _ => res == YearFraction::Ratio {
                days: day_count_of(dc, start, end) as u32,
                basis: 360,
            },
        }
    }
}

/// A year fraction has the value of a convention's fraction from `start` to `end` measured
/// against the reference period `[ref_start, ref_end]` paid `frequency` times a year.
pub open spec fn is_icma_year_fraction_of(
    res: YearFraction,
    dc: DayCount,
    start: Date,
    end: Date,
    ref_start: Date,
    ref_end: Date,
    frequency: u32,
) -> bool {
    if dc == DayCount::ActActICMA {
        if !start.lt(end) || actual_days(ref_start, ref_end) == 0 || frequency == 0 {
            res is Zero
        } else {
            res == YearFraction::Icma {
                days_held: actual_days(start, end) as i64,
                days_in_period: actual_days(ref_start, ref_end) as i64,
                frequency,
            }
        }
    } else {
        is_year_fraction_of(res, dc, start, end)
    }
}

/// 30/360 counts never go negative over a forward period.
pub proof fn lemma_thirty_360_nonnegative(start: Date, end: Date)
    requires
        start.wf(),
        end.wf(),
        start.lt(end),
    ensures
        0 <= thirty_360_us(start, end) < 200_000_000,
        0 <= thirty_360_e(start, end) < 200_000_000,
{
}

/// 30/360 US and 30E/360 count the same days unless the period starts on the last day of
/// February or ends on a 31st after starting before the 30th.
pub proof fn lemma_thirty_360_conventions_agree(start: Date, end: Date)
    requires
        !(start.month == 2 && start.is_month_end()),
        end.day == 31 ==> start.day >= 30,
    ensures
        thirty_360_us(start, end) == thirty_360_e(start, end),
{
}

/// Day counts over a forward period are nonnegative and fit in a `u32`.
pub proof fn lemma_day_count_range(dc: DayCount, start: Date, end: Date)
    requires
        start.wf(),
        end.wf(),
    ensures
        0 <= day_count_of(dc, start, end) < 200_000_000,
        start.lt(end) && (dc != DayCount::Thirty360US && dc != DayCount::Thirty360E) ==> 0
            < day_count_of(dc, start, end),
{
    if start.lt(end) {
        lemma_day_number_monotone(start, end);
        lemma_day_number_bounds(start);
        lemma_day_number_bounds(end);
    }
}

/// The year pieces of a period are nonempty, lie within one year each, and add up to the
/// actual number of days of the period.
pub proof fn lemma_isda_pieces_sum(current: Date, end: Date)
    requires
        current.wf(),
        end.wf(),
        isda_end_in_range(end),
    ensures
        current.lt(end) ==> pieces_days(isda_pieces(current, end)) == actual_days(current, end),
        !current.lt(end) ==> isda_pieces(current, end).len() == 0,
        forall|i: int|
            0 <= i < isda_pieces(current, end).len() ==> 1 <= #[trigger] isda_pieces(
                current,
                end,
            )[i].days <= 366,
    decreases end.year - current.year,
{
    if current.lt(end) {
        let year_end = next_new_year(current);
        assert(year_end.wf());
        lemma_day_number_bounds(current);
        lemma_day_number_bounds(end);
        lemma_day_number_bounds(year_end);
        lemma_day_number_monotone(current, end);
        lemma_lt_iff_day_number(current, year_end);
        crate::fixed_income::calendar::lemma_days_before_next_year(current.year as int);
        crate::fixed_income::calendar::lemma_ordinal_bounds(current);
        let p = isda_pieces(current, end);
        if end.le(year_end) {
            lemma_lt_iff_day_number(end, year_end);
            assert(p.drop_first() =~= Seq::<YearPiece>::empty());
            assert(pieces_days(p.drop_first()) == 0);
            assert(p[0].days == actual_days(current, end));
        } else {
            lemma_day_number_monotone(year_end, end);
            lemma_isda_pieces_sum(year_end, end);
            assert(p.drop_first() =~= isda_pieces(year_end, end));
            assert(p[0].days == actual_days(current, year_end));
            assert forall|i: int| 0 <= i < p.len() implies 1 <= #[trigger] p[i].days <= 366 by {
                if i > 0 {
                    assert(p[i] == isda_pieces(year_end, end)[i - 1]);
                }
            }
        }
    }
}

/// Actual day counts add up over consecutive periods.
pub proof fn lemma_actual_day_count_additive(dc: DayCount, a: Date, b: Date, c: Date)
    requires
        dc != DayCount::Thirty360US,
        dc != DayCount::Thirty360E,
        a.wf(),
        b.wf(),
        c.wf(),
        a.le(b),
        b.le(c),
    ensures
        day_count_of(dc, a, c) == day_count_of(dc, a, b) + day_count_of(dc, b, c),
{
    lemma_lt_iff_day_number(a, b);
    lemma_lt_iff_day_number(b, c);
    lemma_lt_iff_day_number(a, c);
}

/// Under Actual/Actual ISDA a whole calendar year, January 1 to January 1, is one piece whose
/// days equal its basis: a year fraction of exactly one.
pub proof fn lemma_isda_whole_year(y: i32)
    requires
        crate::fixed_income::calendar::MIN_YEAR <= y < MAX_YEAR,
    ensures
        ({
            let start = Date { year: y, month: 1, day: 1 };
            let end = Date { year: (y + 1) as i32, month: 1, day: 1 };
            let basis: u32 = if is_leap_year(y as int) {
                366
            } else {
                365
            };
            isda_pieces(start, end) == seq![YearPiece { days: basis, basis }]
        }),
{
    let start = Date { year: y, month: 1, day: 1 };
    let end = Date { year: (y + 1) as i32, month: 1, day: 1 };
    crate::fixed_income::calendar::lemma_days_before_next_year(y as int);
    assert(next_new_year(start) == end);
    assert(isda_pieces(start, end) =~= seq![
        YearPiece {
            days: actual_days(start, end) as u32,
            basis: if is_leap_year(y as int) {
                366u32
            } else {
                365u32
            },
        },
    ]);
}

impl DayCount {
    /// Number of days from `start` to `end` under the convention; zero unless `start` comes
    /// before `end`.
    pub fn day_count(&self, start: &Date, end: &Date) -> (res: u32)
        requires
            start.wf(),
            end.wf(),
        ensures
            res == day_count_of(*self, *start, *end),
    {
        proof {
            lemma_day_count_range(*self, *start, *end);
        }
        if !start.is_before(end) {
            return 0;
        }
        match self {
            DayCount::Thirty360US => thirty_360_us_day_count(start, end),
            DayCount::Thirty360E => thirty_360_european_day_count(start, end),
            _ => {
                proof {
                    lemma_day_number_monotone(*start, *end);
                }
                start.days_until(end) as u32
            },
        }
    }

    /// The fraction of a year from `start` to `end`: days over the convention's basis, the
    /// per-year pieces for Actual/Actual ISDA, and undefined for Actual/Actual ICMA, which
    /// needs a reference period (see [`DayCount::year_fraction_icma`]).
    pub fn year_fraction(&self, start: &Date, end: &Date) -> (res: YearFraction)
        requires
            start.wf(),
            end.wf(),
            *self == DayCount::ActActISDA ==> isda_end_in_range(*end),
        ensures
            is_year_fraction_of(res, *self, *start, *end),
    {
        if !start.is_before(end) {
            return YearFraction::Zero;
        }
        match self {
            DayCount::Act365F => YearFraction::Ratio { days: self.day_count(start, end), basis: 365 },
            DayCount::Act360 => YearFraction::Ratio { days: self.day_count(start, end), basis: 360 },
            DayCount::Thirty360US => YearFraction::Ratio {
                days: self.day_count(start, end),
                basis: 360,
            },
            DayCount::Thirty360E => YearFraction::Ratio {
                days: self.day_count(start, end),
                basis: 360,
            },
            DayCount::ActActISDA => YearFraction::YearPieces(act_act_isda_pieces(start, end)),
            DayCount::ActActICMA => YearFraction::Undefined,
        }
    }

    /// Year fraction with the regular coupon period `[ref_start, ref_end]` as reference. For
    /// Actual/Actual ICMA it is `(days held / days in period) / frequency`, zero when the period
    /// is empty or the frequency is zero; other conventions ignore the reference period.
    pub fn year_fraction_icma(
        &self,
        start: &Date,
        end: &Date,
        ref_start: &Date,
        ref_end: &Date,
        frequency: u32,
    ) -> (res: YearFraction)
        requires
            start.wf(),
            end.wf(),
            ref_start.wf(),
            ref_end.wf(),
            *self == DayCount::ActActISDA ==> isda_end_in_range(*end),
        ensures
            is_icma_year_fraction_of(res, *self, *start, *end, *ref_start, *ref_end, frequency),
    {
        if !start.is_before(end) {
            return YearFraction::Zero;
        }
        match self {
            DayCount::ActActICMA => {
                let days_in_period = ref_start.days_until(ref_end);
                let days_held = start.days_until(end);
                if days_in_period == 0 || frequency == 0 {
                    return YearFraction::Zero;
                }
                YearFraction::Icma { days_held, days_in_period, frequency }
            },
            _ => self.year_fraction(start, end),
        }
    }
}

/// 30/360 US day count of a forward period.
fn thirty_360_us_day_count(start: &Date, end: &Date) -> (res: u32)
    requires
        start.wf(),
        end.wf(),
        start.lt(*end),
    ensures
        res == thirty_360_us(*start, *end),
{
    proof {
        lemma_thirty_360_nonnegative(*start, *end);
    }
    let mut d1: u32 = start.day;
    let mut d2: u32 = end.day;
    let m1: u32 = start.month;
    let m2: u32 = end.month;
    let y1: i32 = start.year;
    let y2: i32 = end.year;
    let start_is_last_of_feb = m1 == 2 && start.is_month_end_date();
    let end_is_last_of_feb = m2 == 2 && end.is_month_end_date();
    if end_is_last_of_feb && start_is_last_of_feb {
        d2 = 30;
    }
    if start_is_last_of_feb {
        d1 = 30;
    }
    if d2 == 31 && d1 >= 30 {
        d2 = 30;
    }
    if d1 == 31 {
        d1 = 30;
    }
    (360 * (y2 - y1) + 30 * (m2 as i32 - m1 as i32) + (d2 as i32 - d1 as i32)) as u32
}

/// 30E/360 day count of a forward period.
fn thirty_360_european_day_count(start: &Date, end: &Date) -> (res: u32)
    requires
        start.wf(),
        end.wf(),
        start.lt(*end),
    ensures
        res == thirty_360_e(*start, *end),
{
    proof {
        lemma_thirty_360_nonnegative(*start, *end);
    }
    let mut d1: u32 = start.day;
    let mut d2: u32 = end.day;
    if d1 == 31 {
        d1 = 30;
    }
    if d2 == 31 {
        d2 = 30;
    }
    (360 * (end.year - start.year) + 30 * (end.month as i32 - start.month as i32) + (d2 as i32
        - d1 as i32)) as u32
}

/// The Actual/Actual ISDA pieces of `[start, end)`, one per calendar year touched.
fn act_act_isda_pieces(start: &Date, end: &Date) -> (res: Vec<YearPiece>)
    requires
        start.wf(),
        end.wf(),
        isda_end_in_range(*end),
    ensures
        res@ == isda_pieces(*start, *end),
{
    let mut pieces: Vec<YearPiece> = Vec::new();
    let mut current: Date = *start;
    while current.is_before(end)
        invariant
            current.wf(),
            end.wf(),
            isda_end_in_range(*end),
            pieces@ + isda_pieces(current, *end) == isda_pieces(*start, *end),
        decreases end.year - current.year + 1,
    {
        let current_year = current.year;
        let year_end = match Date::from_ymd_opt(current_year + 1, 1, 1) {
            Some(d) => d,
            None => {
                assert(false);
                current
            },
        };
        let period_end = if end.is_before(&year_end) {
            *end
        } else {
            year_end
        };
        proof {
            lemma_day_number_monotone(current, *end);
            lemma_lt_iff_day_number(current, year_end);
            lemma_day_number_bounds(current);
            lemma_day_number_bounds(year_end);
            lemma_day_number_bounds(*end);
        }
        let days_in_this_year = current.days_until(&period_end) as u32;
        let year_basis: u32 = if current.is_leap_year() {
            366
        } else {
            365
        };
        let ghost before = pieces@;
        pieces.push(YearPiece { days: days_in_this_year, basis: year_basis });
        proof {
            if end.le(year_end) {
                assert(isda_pieces(year_end, *end) =~= Seq::<YearPiece>::empty());
            }
            assert(pieces@ + isda_pieces(year_end, *end) =~= before + isda_pieces(current, *end));
        }
        current = year_end;
    }
    proof {
        assert(isda_pieces(current, *end) =~= Seq::<YearPiece>::empty());
        assert(pieces@ =~= pieces@ + isda_pieces(current, *end));
    }
    pieces
}

/// What `str::to_uppercase` returns for a string: its Unicode upper case mapping.
pub uninterp spec fn uppercase(s: Seq<char>) -> Seq<char>;

/// Calls `str::to_uppercase`. Its result depends on the string alone and is named
/// `uppercase`; the Unicode case tables that define it are not restated here.
#[verifier::external_body]
fn str_to_uppercase(s: &str) -> (res: String)
    ensures
        res@ == uppercase(s@),
{
    s.to_uppercase()
}

/// The convention that an upper case name stands for.
pub open spec fn day_count_named(name: Seq<char>) -> Option<DayCount> {
    if name == "ACT/365F"@ || name == "ACT365F"@ {
        Some(DayCount::Act365F)
    } else if name == "ACT/360"@ || name == "ACT360"@ {
        Some(DayCount::Act360)
    } else if name == "30/360US"@ || name == "30360US"@ {
        Some(DayCount::Thirty360US)
    } else if name == "30/360E"@ || name == "30360E"@ {
        Some(DayCount::Thirty360E)
    } else if name == "ACT/ACT ISDA"@ || name == "ACTACTISDA"@ {
        Some(DayCount::ActActISDA)
    } else if name == "ACT/ACT ICMA"@ || name == "ACTACTICMA"@ {
        Some(DayCount::ActActICMA)
    } else {
        None
    }
}

impl DayCount {
    /// The convention named by an upper case name such as `"ACT/360"` or `"30360US"`.
    pub fn from_upper_name(name: &str) -> (res: Option<DayCount>)
        ensures
            res == day_count_named(name@),
    {
        if str_equals(name, "ACT/365F") || str_equals(name, "ACT365F") {
            Some(DayCount::Act365F)
        } else if str_equals(name, "ACT/360") || str_equals(name, "ACT360") {
            Some(DayCount::Act360)
        } else if str_equals(name, "30/360US") || str_equals(name, "30360US") {
            Some(DayCount::Thirty360US)
        } else if str_equals(name, "30/360E") || str_equals(name, "30360E") {
            Some(DayCount::Thirty360E)
        } else if str_equals(name, "ACT/ACT ISDA") || str_equals(name, "ACTACTISDA") {
            Some(DayCount::ActActISDA)
        } else if str_equals(name, "ACT/ACT ICMA") || str_equals(name, "ACTACTICMA") {
            Some(DayCount::ActActICMA)
        } else {
            None
        }
    }

    /// The convention a name stands for, in any letter case (`"act/360"`, `"Act/Act ISDA"`).
    pub fn from_name(convention: &str) -> (res: Option<DayCount>)
        ensures
            res == day_count_named(uppercase(convention@)),
    {
        let upper = str_to_uppercase(convention);
        DayCount::from_upper_name(upper.as_str())
    }
}

} // verus!
