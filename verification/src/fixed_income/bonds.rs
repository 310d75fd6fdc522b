//! Coupon schedules and the date logic of bond pricing.
//!
//! Coupon dates are generated backwards from maturity, so that an irregular first period
//! (a short stub) follows the issue date. The pricing functions here decide everything that
//! depends on dates and day counts; the discounting itself is done in floating point by
//! the caller from the exact fractions returned.

use crate::fixed_income::calendar::{
    Date, MIN_YEAR, lemma_day_number_bounds, lemma_lt_iff_day_number, lemma_stepped_back,
    year_months_back,
};
use crate::fixed_income::day_count::{
    DayCount, YearFraction, actual_days, day_count_of, is_icma_year_fraction_of, is_year_fraction_of,
    isda_end_in_range,
};
use crate::text::str_equals;
use vstd::prelude::*;

verus! {

/// The dates and coupon frequency of a coupon paying bond.
#[derive(Clone, Copy, Debug, PartialEq, Eq, Structural)]
pub struct CouponTerms {
    pub issue_date: Date,
    pub maturity: Date,
    /// Coupon payments per year.
    pub frequency: u32,
}

/// Regular coupon dates strictly after `issue`, found by stepping back `k` months at a time
/// from `current` (excluded), latest first.
pub open spec fn dates_back(current: Date, issue: Date, k: int, eom_rule: bool) -> Seq<Date>
    decreases current.month_index() - issue.month_index(),
{
    if k < 1 || !issue.lt(current) {
        Seq::empty()
    } else {
        let prev = current.stepped_back(k, eom_rule);
        if issue.lt(prev) && prev.month_index() < current.month_index() && issue.month_index()
            <= prev.month_index() {
            seq![prev] + dates_back(prev, issue, k, eom_rule)
        } else {
            Seq::empty()
        }
    }
}

impl CouponTerms {
    /// Both dates are representable and the issue date is not in chrono's first year, so
    /// that stepping back from any coupon date stays representable.
    pub open spec fn wf(self) -> bool {
        &&& self.issue_date.wf()
        &&& self.maturity.wf()
        &&& self.issue_date.year > MIN_YEAR
    }

    /// Months between regular coupon dates.
    pub open spec fn coupon_months(self) -> int {
        12int / (self.frequency as int)
    }

    /// Coupon dates keep to month ends when the maturity is a month end.
    pub open spec fn eom_rule(self) -> bool {
        self.maturity.is_month_end()
    }

    /// The coupon payment dates in increasing order, ending at maturity; empty for a zero
    /// frequency.
    pub open spec fn schedule(self) -> Seq<Date> {
        if self.frequency == 0 {
            Seq::empty()
        } else {
            (seq![self.maturity] + dates_back(
                self.maturity,
                self.issue_date,
                self.coupon_months(),
                self.eom_rule(),
            )).reverse()
        }
    }

    /// The regular coupon period that ends on `cf_date`.
    pub open spec fn spec_reference_period(self, cf_date: Date) -> (Date, Date) {
        if self.frequency == 0 {
            (cf_date, cf_date)
        } else {
            (cf_date.stepped_back(self.coupon_months(), self.eom_rule()), cf_date)
        }
    }
}

/// A frequency of one to twelve payments a year gives one to twelve months between them.
proof fn lemma_coupon_months(frequency: u32)
    requires
        1 <= frequency <= 12,
    ensures
        1 <= 12int / (frequency as int) <= 12,
        12u32 / frequency == 12int / (frequency as int),
{
    assert(1 <= 12int / (frequency as int) <= 12) by (nonlinear_arith)
        requires
            1 <= frequency <= 12,
    {
        if 12int / (frequency as int) < 1 {
            vstd::arithmetic::div_mod::lemma_fundamental_div_mod(12, frequency as int);
        }
    }
}

/// Facts about stepping back from a date after the issue date.
proof fn lemma_step_after_issue(current: Date, issue: Date, k: int, eom_rule: bool)
    requires
        current.wf(),
        issue.wf(),
        issue.year > MIN_YEAR,
        issue.lt(current),
        1 <= k <= 12,
    ensures
        year_months_back(current.year as int, current.month as int, k) >= MIN_YEAR,
        current.stepped_back(k, eom_rule).wf(),
        current.stepped_back(k, eom_rule).lt(current),
        current.stepped_back(k, eom_rule).month_index() == current.month_index() - k,
        issue.lt(current.stepped_back(k, eom_rule)) ==> issue.month_index()
            <= current.stepped_back(k, eom_rule).month_index(),
        issue.month_index() <= current.month_index(),
{
    lemma_stepped_back(current, k, eom_rule);
}

/// The dates found by stepping back are strictly decreasing, each after the issue date,
/// each regular step before the previous one.
proof fn lemma_dates_back(current: Date, issue: Date, k: int, eom_rule: bool)
    requires
        current.wf(),
        issue.wf(),
        issue.year > MIN_YEAR,
        1 <= k <= 12,
    ensures
        ({
            let s = dates_back(current, issue, k, eom_rule);
            &&& forall|i: int| 0 <= i < s.len() ==> (#[trigger] s[i]).wf() && issue.lt(s[i])
            &&& s.len() > 0 ==> s[0] == current.stepped_back(k, eom_rule)
            &&& forall|i: int|
                0 <= i < s.len() - 1 ==> s[i + 1] == (#[trigger] s[i]).stepped_back(k, eom_rule)
            &&& forall|i: int, j: int| 0 <= i < j < s.len() ==> (#[trigger] s[j]).lt(#[trigger] s[i])
            &&& forall|i: int| 0 <= i < s.len() ==> (#[trigger] s[i]).lt(current)
            &&& issue.lt(current) ==> !issue.lt(
                (if s.len() == 0 {
                    current
                } else {
                    s[s.len() - 1]
                }).stepped_back(k, eom_rule),
            )
        }),
    decreases current.month_index() - issue.month_index(),
{
    let s = dates_back(current, issue, k, eom_rule);
    if issue.lt(current) {
        lemma_step_after_issue(current, issue, k, eom_rule);
        let prev = current.stepped_back(k, eom_rule);
        if issue.lt(prev) {
            lemma_dates_back(prev, issue, k, eom_rule);
            let rest = dates_back(prev, issue, k, eom_rule);
            assert(s == seq![prev] + rest);
            assert forall|i: int| 0 <= i < s.len() implies (#[trigger] s[i]).lt(current) by {
                if i > 0 {
                    assert(s[i] == rest[i - 1]);
                }
            }
            assert forall|i: int, j: int| 0 <= i < j < s.len() implies (#[trigger] s[j]).lt(
                #[trigger] s[i],
            ) by {
                assert(s[j] == rest[j - 1]);
                if i > 0 {
                    assert(s[i] == rest[i - 1]);
                }
            }
            assert forall|i: int| 0 <= i < s.len() - 1 implies s[i + 1] == (#[trigger] s[
                i
            ]).stepped_back(k, eom_rule) by {
                assert(s[i + 1] == rest[i]);
                if i > 0 {
                    assert(s[i] == rest[i - 1]);
                }
            }
            assert forall|i: int| 0 <= i < s.len() implies (#[trigger] s[i]).wf() && issue.lt(
                s[i],
            ) by {
                if i > 0 {
                    assert(s[i] == rest[i - 1]);
                }
            }
        }
    }
}

/// The coupon schedule ends at maturity and increases strictly; consecutive coupon dates are
/// one regular period apart; once maturity is after the issue date, every coupon date is after
/// the issue date and the first one is the earliest regular date after it.
pub proof fn lemma_schedule_shape(terms: CouponTerms)
    requires
        terms.wf(),
        1 <= terms.frequency <= 12,
    ensures
        ({
            let s = terms.schedule();
            let k = terms.coupon_months();
            let eom = terms.eom_rule();
            &&& s.len() >= 1
            &&& s[s.len() - 1] == terms.maturity
            &&& forall|i: int| 0 <= i < s.len() ==> (#[trigger] s[i]).wf()
            &&& forall|i: int, j: int| 0 <= i < j < s.len() ==> (#[trigger] s[i]).lt(#[trigger] s[j])
            &&& forall|i: int|
                0 <= i < s.len() - 1 ==> (#[trigger] s[i]) == s[i + 1].stepped_back(k, eom)
            &&& terms.issue_date.lt(terms.maturity) ==> forall|i: int|
                0 <= i < s.len() ==> terms.issue_date.lt(#[trigger] s[i])
            &&& terms.issue_date.lt(terms.maturity) ==> !terms.issue_date.lt(
                s[0].stepped_back(k, eom),
            )
            &&& !terms.issue_date.lt(terms.maturity) ==> s == seq![terms.maturity]
        }),
{
    let k = terms.coupon_months();
    let eom = terms.eom_rule();
    lemma_coupon_months(terms.frequency);
    lemma_dates_back(terms.maturity, terms.issue_date, k, eom);
    let b = dates_back(terms.maturity, terms.issue_date, k, eom);
    let full = seq![terms.maturity] + b;
    let s = terms.schedule();
    let n = full.len();
    assert(s == full.reverse());
    assert(s.len() == n);
    assert forall|i: int| 0 <= i < n implies #[trigger] s[i] == full[n - 1 - i] by {}
    assert(s[n - 1] == terms.maturity);
    assert forall|i: int| 0 <= i < n implies (#[trigger] s[i]).wf() by {
        if n - 1 - i > 0 {
            assert(full[n - 1 - i] == b[n - 2 - i]);
        }
    }
    assert forall|i: int, j: int| 0 <= i < j < n implies (#[trigger] s[i]).lt(#[trigger] s[j]) by {
        let a = n - 1 - i;
        let c = n - 1 - j;
        assert(s[i] == full[a]);
        assert(s[j] == full[c]);
        if c == 0 {
            assert(full[a] == b[a - 1]);
        } else {
            assert(full[a] == b[a - 1]);
            assert(full[c] == b[c - 1]);
        }
    }
    assert forall|i: int| 0 <= i < n - 1 implies (#[trigger] s[i]) == s[i + 1].stepped_back(
        k,
        eom,
    ) by {
        let a = n - 1 - i;
        assert(s[i] == full[a]);
        assert(s[i + 1] == full[a - 1]);
        assert(full[a] == b[a - 1]);
        if a - 1 > 0 {
            assert(full[a - 1] == b[a - 2]);
        }
    }
    if terms.issue_date.lt(terms.maturity) {
        assert forall|i: int| 0 <= i < n implies terms.issue_date.lt(#[trigger] s[i]) by {
            if n - 1 - i > 0 {
                assert(full[n - 1 - i] == b[n - 2 - i]);
            }
        }
        assert(s[0] == full[n - 1]);
        if n > 1 {
            assert(full[n - 1] == b[b.len() - 1]);
        }
    } else {
        assert(b.len() == 0);
        assert(s =~= seq![terms.maturity]);
    }
}

/// Consecutive coupon dates lie `12 / frequency` months apart (twelve for an annual bond,
/// six for a semi-annual one, one for a monthly one), and the first coupon date comes less
/// than one such period after the month of the issue date.
#[verifier::rlimit(40)]
pub proof fn lemma_coupon_dates_regularly_spaced(terms: CouponTerms)
    requires
        terms.wf(),
        1 <= terms.frequency <= 12,
    ensures
        forall|i: int|
            0 <= i < terms.schedule().len() - 1 ==> #[trigger] terms.schedule()[i + 1].month_index()
                - terms.schedule()[i].month_index() == 12int / (terms.frequency as int),
        terms.issue_date.lt(terms.maturity) ==> terms.schedule()[0].month_index() - 12int / (
        terms.frequency as int) <= terms.issue_date.month_index(),
{
    lemma_schedule_shape(terms);
    lemma_coupon_months(terms.frequency);
    let s = terms.schedule();
    let k = terms.coupon_months();
    let eom = terms.eom_rule();
    assert forall|i: int| 0 <= i < s.len() - 1 implies #[trigger] s[i + 1].month_index()
        - s[i].month_index() == 12int / (terms.frequency as int) by {
        assert(terms.issue_date.lt(s[i + 1])) by {
            if !terms.issue_date.lt(terms.maturity) {
                assert(s.len() == 1);
            }
        }
        lemma_step_after_issue(s[i + 1], terms.issue_date, k, eom);
    }
    if terms.issue_date.lt(terms.maturity) {
        lemma_step_after_issue(s[0], terms.issue_date, k, eom);
    }
}

impl CouponTerms {
    /// The coupon payment dates, in increasing order and ending at maturity, generated
    /// backwards from maturity one regular period at a time; the issue date itself is not a
    /// payment date, so a short first period follows it. Empty for a zero frequency.
    pub fn coupon_schedule(&self) -> (res: Vec<Date>)
        requires
            self.wf(),
            self.frequency <= 12,
        ensures
            res@ == self.schedule(),
            forall|i: int|
                0 <= i < res@.len() - 1 ==> #[trigger] res@[i + 1].month_index() - res@[i].month_index()
                    == 12int / (self.frequency as int),
    {
        let mut dates: Vec<Date> = Vec::new();
        if self.frequency == 0 {
            return dates;
        }
        let months_back: u32 = 12 / self.frequency;
        proof {
            lemma_coupon_months(self.frequency);
        }
        let mut current: Date = self.maturity;
        let eom_rule = self.maturity.is_month_end_date();
        dates.push(current);
        let ghost full = seq![self.maturity] + dates_back(
            self.maturity,
            self.issue_date,
            months_back as int,
            eom_rule,
        );
        assert(dates@ + dates_back(current, self.issue_date, months_back as int, eom_rule) =~= full);
        loop
            invariant
                self.wf(),
                1 <= months_back <= 12,
                current.wf(),
                dates@.len() >= 1,
                dates@[dates@.len() - 1] == current,
                dates@ + dates_back(current, self.issue_date, months_back as int, eom_rule) == full,
            ensures
                dates@ == full,
            decreases current.month_index() - self.issue_date.month_index(),
        {
            if !self.issue_date.is_before(&current) {
                assert(dates@ =~= full);
                break;
            }
            proof {
                lemma_step_after_issue(current, self.issue_date, months_back as int, eom_rule);
            }
            let prev = current.step_months_backward(months_back, eom_rule);
            if self.issue_date.is_before(&prev) {
                let ghost old_dates = dates@;
                let ghost old_current = current;
                dates.push(prev);
                current = prev;
                assert(dates_back(old_current, self.issue_date, months_back as int, eom_rule)
                    == seq![prev] + dates_back(prev, self.issue_date, months_back as int, eom_rule));
                assert(dates@ + dates_back(current, self.issue_date, months_back as int, eom_rule)
                    =~= old_dates + dates_back(old_current, self.issue_date, months_back as int, eom_rule));
            } else {
                assert(dates@ =~= full);
                break;
            }
        }
        let n = dates.len();
        let mut res: Vec<Date> = Vec::new();
        let mut i = n;
        while i > 0
            invariant
                n == dates@.len(),
                i <= n,
                res@ =~= Seq::new((n - i) as nat, |j: int| dates@[n - 1 - j]),
            decreases i,
        {
            i = i - 1;
            res.push(dates[i]);
        }
        assert(res@ =~= full.reverse());
        proof {
            lemma_coupon_dates_regularly_spaced(*self);
        }
        res
    }
}

/// Coupon frequencies that bonds may have: annual, semi-annual, quarterly, monthly.
pub open spec fn is_valid_frequency(frequency: u32) -> bool {
    frequency == 1 || frequency == 2 || frequency == 4 || frequency == 12
}

/// Index of the first date in `s`, from `i` on, that comes after `t`; 0 when there is none.
pub open spec fn first_after(s: Seq<Date>, t: Date, i: int) -> int
    decreases s.len() - i,
{
    if i < 0 || i >= s.len() {
        0
    } else if t.lt(s[i]) {
        i
    } else {
        first_after(s, t, i + 1)
    }
}

/// Index of the next coupon date after `t` in the schedule `s`.
pub open spec fn next_coupon_index(s: Seq<Date>, t: Date) -> int {
    first_after(s, t, 0)
}

/// The next coupon index is a valid index and, when some date of `s` comes after `t`, it is
/// the first such date.
pub proof fn lemma_first_after(s: Seq<Date>, t: Date, i: int)
    requires
        0 <= i,
    ensures
        s.len() > 0 ==> 0 <= first_after(s, t, i) < s.len(),
        (exists|j: int| i <= j < s.len() && t.lt(#[trigger] s[j])) ==> {
            let r = first_after(s, t, i);
            &&& i <= r < s.len()
            &&& t.lt(s[r])
            &&& forall|j: int| i <= j < r ==> !t.lt(#[trigger] s[j])
        },
    decreases s.len() - i,
{
    if i < s.len() && !t.lt(s[i]) {
        lemma_first_after(s, t, i + 1);
        if exists|j: int| i <= j < s.len() && t.lt(#[trigger] s[j]) {
            let j = choose|j: int| i <= j < s.len() && t.lt(#[trigger] s[j]);
            assert(i + 1 <= j);
        }
    }
}

/// Why a bond cannot be priced.
#[derive(Clone, Copy, Debug, PartialEq, Eq, Structural)]
pub enum PricingRejection {
    /// The coupon frequency is not 1, 2, 4 or 12.
    InvalidFrequency(u32),
    /// The yield to maturity is at or below -100%.
    InvalidYield,
    /// Settlement comes after maturity (for a zero coupon bond: on or after it).
    SettlementAfterMaturity { settlement: Date, maturity: Date },
    /// Settlement comes before the issue date.
    SettlementBeforeIssue,
}

/// An exact fraction of a coupon period.
#[derive(Clone, Debug, PartialEq)]
pub enum PeriodFraction {
    /// `days / period_days`, both counted by the day count convention.
    DayRatio { days: u32, period_days: u32 },
    /// The Actual/Actual ICMA year fraction `fraction` multiplied by `frequency`.
    IcmaPeriods { fraction: YearFraction, frequency: u32 },
}

/// One remaining coupon payment.
#[derive(Clone, Debug, PartialEq)]
pub struct CouponFlow {
    pub date: Date,
    /// For the first coupon after the issue date, the share of a regular coupon that it pays;
    /// `None` for a full regular coupon.
    pub stub: Option<PeriodFraction>,
}

/// Everything that pricing a coupon bond decides from dates and day counts.
#[derive(Clone, Debug, PartialEq)]
pub enum CouponPricePlan {
    /// Settlement on the maturity date: the bond is redeemed at face value, nothing accrued.
    Redemption,
    /// The remaining coupons: the coupon at position `i` is discounted over
    /// `periods_to_next + i` coupon periods, the principal over
    /// `periods_to_next + coupons.len() - 1`; `accrual` is the year fraction of accrued
    /// interest (`None`: no interest accrued).
    Discounted {
        periods_to_next: PeriodFraction,
        coupons: Vec<CouponFlow>,
        accrual: Option<YearFraction>,
    },
}

/// `pf` is the fraction from `start` to `end` of the coupon period `[ref_start, ref_end]`.
pub open spec fn is_period_fraction_of(
    pf: PeriodFraction,
    dc: DayCount,
    start: Date,
    end: Date,
    ref_start: Date,
    ref_end: Date,
    frequency: u32,
) -> bool {
    if dc == DayCount::ActActICMA {
        pf matches PeriodFraction::IcmaPeriods { fraction, frequency: f } && f == frequency
            && is_icma_year_fraction_of(fraction, dc, start, end, ref_start, ref_end, frequency)
    } else {
        pf == PeriodFraction::DayRatio {
            days: day_count_of(dc, start, end) as u32,
            period_days: day_count_of(dc, ref_start, ref_end) as u32,
        }
    }
}

/// The accrued interest year fraction of a coupon bond at `settlement`.
pub open spec fn is_accrual_of(
    res: Option<YearFraction>,
    terms: CouponTerms,
    settlement: Date,
    dc: DayCount,
) -> bool {
    if !is_valid_frequency(terms.frequency) || !settlement.lt(terms.maturity)
        || !terms.issue_date.lt(settlement) {
        res is None
    } else {
        let s = terms.schedule();
        let n = next_coupon_index(s, settlement);
        let prev = if n == 0 {
            terms.issue_date
        } else {
            s[n - 1]
        };
        let (ref_start, ref_end) = terms.spec_reference_period(s[n]);
        res matches Some(yf) && is_icma_year_fraction_of(
            yf,
            dc,
            prev,
            settlement,
            ref_start,
            ref_end,
            terms.frequency,
        )
    }
}

/// The price plan of a coupon bond at `settlement`.
pub open spec fn is_price_plan_of(
    res: Result<CouponPricePlan, PricingRejection>,
    terms: CouponTerms,
    settlement: Date,
    dc: DayCount,
    yield_in_range: bool,
) -> bool {
    if !is_valid_frequency(terms.frequency) {
        res == Err::<CouponPricePlan, PricingRejection>(
            PricingRejection::InvalidFrequency(terms.frequency),
        )
    } else if !yield_in_range {
        res == Err::<CouponPricePlan, PricingRejection>(PricingRejection::InvalidYield)
    } else if terms.maturity.lt(settlement) {
        res == Err::<CouponPricePlan, PricingRejection>(
            PricingRejection::SettlementAfterMaturity { settlement, maturity: terms.maturity },
        )
    } else if settlement.lt(terms.issue_date) {
        res == Err::<CouponPricePlan, PricingRejection>(PricingRejection::SettlementBeforeIssue)
    } else if settlement == terms.maturity {
        res == Ok::<CouponPricePlan, PricingRejection>(CouponPricePlan::Redemption)
    } else {
        let s = terms.schedule();
        let n = next_coupon_index(s, settlement);
        let f = terms.frequency;
        res matches Ok(CouponPricePlan::Discounted { periods_to_next, coupons, accrual }) && {
            &&& is_period_fraction_of(
                periods_to_next,
                dc,
                settlement,
                s[n],
                terms.spec_reference_period(s[n]).0,
                terms.spec_reference_period(s[n]).1,
                f,
            )
            &&& coupons@.len() == s.len() - n
            &&& forall|i: int|
                0 <= i < coupons@.len() ==> {
                    let cf = s[n + i];
                    let prev = if n + i == 0 {
                        terms.issue_date
                    } else {
                        s[n + i - 1]
                    };
                    &&& (#[trigger] coupons@[i]).date == cf
                    &&& if prev == terms.issue_date {
                        coupons@[i].stub matches Some(pf) && is_period_fraction_of(
                            pf,
                            dc,
                            prev,
                            cf,
                            terms.spec_reference_period(cf).0,
                            terms.spec_reference_period(cf).1,
                            f,
                        )
                    } else {
                        coupons@[i].stub is None
                    }
                }
            &&& is_accrual_of(accrual, terms, settlement, dc)
        }
    }
}

/// In a price plan only the first coupon after the issue date can be an irregular stub:
/// every later coupon is a full regular coupon.
pub proof fn lemma_only_first_coupon_is_stub(
    res: Result<CouponPricePlan, PricingRejection>,
    terms: CouponTerms,
    settlement: Date,
    dc: DayCount,
    yield_in_range: bool,
)
    requires
        terms.wf(),
        settlement.wf(),
        is_price_plan_of(res, terms, settlement, dc, yield_in_range),
        res matches Ok(CouponPricePlan::Discounted { .. }),
    ensures
        res matches Ok(CouponPricePlan::Discounted { coupons, .. }) && forall|i: int|
            0 <= i < coupons@.len() ==> ((#[trigger] coupons@[i]).stub is Some <==> i == 0
                && next_coupon_index(terms.schedule(), settlement) == 0),
{
    lemma_schedule_shape(terms);
    let s = terms.schedule();
    let n = next_coupon_index(s, settlement);
    if let Ok(CouponPricePlan::Discounted { coupons, .. }) = res {
        assert(is_valid_frequency(terms.frequency));
        assert(terms.issue_date.le(settlement) && settlement.lt(terms.maturity));
        assert(terms.issue_date.lt(terms.maturity));
        lemma_first_after(s, settlement, 0);
        assert forall|i: int| 0 <= i < coupons@.len() implies ((#[trigger] coupons@[i]).stub is Some
            <==> i == 0 && n == 0) by {
            assert(coupons@[i].date == s[n + i]);
            if n + i > 0 {
                assert(0 <= n + i - 1 < s.len());
                assert(terms.issue_date.lt(s[n + i - 1]));
                assert(s[n + i - 1] != terms.issue_date);
            }
        }
    }
}

/// `pf` counts the days from `start` to the coupon date `cf` against the days of the coupon
/// period `[r, cf]`; under the actual-day conventions, when `r` is on or before `start`, it is
/// at most one full period, and less than one when `r` is before `start`.
pub open spec fn share_of_period(
    pf: PeriodFraction,
    dc: DayCount,
    start: Date,
    cf: Date,
    r: Date,
    frequency: u32,
) -> bool {
    match pf {
        PeriodFraction::DayRatio { days, period_days } => {
            &&& dc != DayCount::ActActICMA
            &&& days == day_count_of(dc, start, cf)
            &&& period_days == day_count_of(dc, r, cf)
            &&& dc != DayCount::Thirty360US && dc != DayCount::Thirty360E ==> {
                &&& days <= period_days
                &&& r.lt(start) ==> days < period_days
            }
        },
        PeriodFraction::IcmaPeriods { fraction, frequency: f } => {
            &&& dc == DayCount::ActActICMA
            &&& f == frequency
            &&& fraction == YearFraction::Icma {
                days_held: actual_days(start, cf) as i64,
                days_in_period: actual_days(r, cf) as i64,
                frequency,
            }
            &&& actual_days(start, cf) <= actual_days(r, cf)
            &&& r.lt(start) ==> actual_days(start, cf) < actual_days(r, cf)
        },
    }
}

#[verifier::rlimit(40)]
proof fn lemma_share_of_period(
    pf: PeriodFraction,
    dc: DayCount,
    start: Date,
    cf: Date,
    r: Date,
    frequency: u32,
)
    requires
        start.wf(),
        cf.wf(),
        r.wf(),
        r.le(start),
        start.lt(cf),
        1 <= frequency,
        is_period_fraction_of(pf, dc, start, cf, r, cf, frequency),
    ensures
        share_of_period(pf, dc, start, cf, r, frequency),
{
    lemma_lt_iff_day_number(r, start);
    lemma_lt_iff_day_number(start, cf);
    lemma_lt_iff_day_number(r, cf);
    lemma_day_number_bounds(r);
    lemma_day_number_bounds(cf);
    lemma_day_number_bounds(start);
}

/// The stub of the first coupon after the issue date is measured against the regular coupon
/// period that ends on that coupon date: a period that starts `12 / frequency` months earlier,
/// on or before the issue date. The stub counts the days from the issue date to the coupon
/// date; under the actual-day conventions it is therefore at most one full period, and less
/// than one when the first period is short.
#[verifier::rlimit(40)]
pub proof fn lemma_stub_against_regular_period(
    res: Result<CouponPricePlan, PricingRejection>,
    terms: CouponTerms,
    settlement: Date,
    dc: DayCount,
    yield_in_range: bool,
    i: int,
)
    requires
        terms.wf(),
        settlement.wf(),
        is_price_plan_of(res, terms, settlement, dc, yield_in_range),
        res matches Ok(CouponPricePlan::Discounted { coupons, .. }) && 0 <= i < coupons@.len()
            && coupons@[i].stub is Some,
    ensures
        res matches Ok(CouponPricePlan::Discounted { coupons, .. }) && exists|r: Date|
            #![trigger r.month_index()]
            {
                &&& r.wf()
                &&& r.lt(coupons@[i].date)
                &&& r.le(terms.issue_date)
                &&& r.month_index() == coupons@[i].date.month_index() - 12int / (
                terms.frequency as int)
                &&& share_of_period(
                    coupons@[i].stub.unwrap(),
                    dc,
                    terms.issue_date,
                    coupons@[i].date,
                    r,
                    terms.frequency,
                )
            },
{
    let issue = terms.issue_date;
    if let Ok(CouponPricePlan::Discounted { coupons, .. }) = res {
        let s = terms.schedule();
        let n = next_coupon_index(s, settlement);
        let k = terms.coupon_months();
        let eom = terms.eom_rule();
        let cf = coupons@[i].date;
        assert(1 <= terms.frequency <= 12 && issue.lt(terms.maturity));
        assert(n + i == 0 && cf == s[0] && issue.lt(cf) && cf.wf() && !issue.lt(
            cf.stepped_back(k, eom),
        )) by {
            lemma_schedule_shape(terms);
            lemma_first_after(s, settlement, 0);
            assert(cf == s[n + i]);
            if n + i > 0 {
                assert(issue.lt(s[n + i - 1]));
            }
        }
        lemma_coupon_months(terms.frequency);
        lemma_step_after_issue(cf, issue, k, eom);
        let r = cf.stepped_back(k, eom);
        assert(r == terms.spec_reference_period(cf).0);
        let pf = coupons@[i].stub.unwrap();
        lemma_share_of_period(pf, dc, issue, cf, r, terms.frequency);
        assert(r.month_index() == cf.month_index() - 12int / (terms.frequency as int));
    }
}

/// `m` is the position of the first date of `s` that comes after `t`.
pub open spec fn is_first_after(s: Seq<Date>, t: Date, m: int) -> bool {
    &&& 0 <= m < s.len()
    &&& t.lt(s[m])
    &&& forall|j: int| 0 <= j < m ==> (#[trigger] s[j]).le(t)
}

/// The regular coupon period that ends on the first coupon date after settlement starts
/// `12 / frequency` months before it and not after settlement.
#[verifier::rlimit(40)]
proof fn lemma_next_regular_period(terms: CouponTerms, settlement: Date)
    requires
        terms.wf(),
        settlement.wf(),
        is_valid_frequency(terms.frequency),
        terms.issue_date.le(settlement),
        settlement.lt(terms.maturity),
    ensures
        ({
            let s = terms.schedule();
            let n = next_coupon_index(s, settlement);
            let r = terms.spec_reference_period(s[n]).0;
            &&& is_first_after(s, settlement, n)
            &&& s[n].wf()
            &&& terms.issue_date.lt(s[n])
            &&& r.wf()
            &&& r.lt(s[n])
            &&& r.le(settlement)
            &&& r.month_index() == s[n].month_index() - 12int / (terms.frequency as int)
        }),
{
    let s = terms.schedule();
    let k = terms.coupon_months();
    let eom = terms.eom_rule();
    let issue = terms.issue_date;
    lemma_coupon_months(terms.frequency);
    let n = next_coupon_index(s, settlement);
    assert(is_first_after(s, settlement, n) && s[n].wf() && issue.lt(s[n])) by {
        lemma_schedule_shape(terms);
        lemma_first_after(s, settlement, 0);
        assert(settlement.lt(s[s.len() - 1]));
    }
    lemma_step_after_issue(s[n], issue, k, eom);
    let r = s[n].stepped_back(k, eom);
    if n > 0 {
        assert(s[n - 1] == r) by {
            lemma_schedule_shape(terms);
        }
        assert(s[n - 1].le(settlement));
    } else {
        assert(r.le(issue)) by {
            lemma_schedule_shape(terms);
        }
        lemma_lt_iff_day_number(r, issue);
        lemma_lt_iff_day_number(issue, settlement);
        lemma_lt_iff_day_number(r, settlement);
    }
}

/// The remaining coupons of a price plan are exactly the coupon dates after settlement, in
/// order; the discount period to the first of them counts the days from settlement to it
/// against the regular coupon period that ends on it, which starts `12 / frequency` months
/// earlier and not after settlement, so it is at most one full period.
#[verifier::rlimit(40)]
pub proof fn lemma_remaining_coupons(
    res: Result<CouponPricePlan, PricingRejection>,
    terms: CouponTerms,
    settlement: Date,
    dc: DayCount,
    yield_in_range: bool,
)
    requires
        terms.wf(),
        settlement.wf(),
        is_price_plan_of(res, terms, settlement, dc, yield_in_range),
        res matches Ok(CouponPricePlan::Discounted { .. }),
    ensures
        res matches Ok(CouponPricePlan::Discounted { periods_to_next, coupons, .. })
            && exists|m: int, r: Date|
            #![trigger is_first_after(terms.schedule(), settlement, m), r.month_index()]
            {
                &&& is_first_after(terms.schedule(), settlement, m)
                &&& coupons@.len() == terms.schedule().len() - m
                &&& forall|i: int|
                    0 <= i < coupons@.len() ==> (#[trigger] coupons@[i]).date
                        == terms.schedule()[m + i]
                &&& r.wf()
                &&& r.lt(terms.schedule()[m])
                &&& r.le(settlement)
                &&& r.month_index() == terms.schedule()[m].month_index() - 12int / (
                terms.frequency as int)
                &&& share_of_period(
                    periods_to_next,
                    dc,
                    settlement,
                    terms.schedule()[m],
                    r,
                    terms.frequency,
                )
            },
{
    if let Ok(CouponPricePlan::Discounted { periods_to_next, coupons, .. }) = res {
        let s = terms.schedule();
        let n = next_coupon_index(s, settlement);
        lemma_next_regular_period(terms, settlement);
        let r = terms.spec_reference_period(s[n]).0;
        lemma_share_of_period(periods_to_next, dc, settlement, s[n], r, terms.frequency);
        assert(r.month_index() == s[n].month_index() - 12int / (terms.frequency as int));
    }
}

/// On a coupon date before maturity no interest has accrued: the accrual period runs from
/// that coupon date to itself, so its year fraction is zero under every convention.
pub proof fn lemma_no_accrual_on_coupon_date(
    res: Option<YearFraction>,
    terms: CouponTerms,
    k: int,
    dc: DayCount,
)
    requires
        terms.wf(),
        is_valid_frequency(terms.frequency),
        terms.issue_date.lt(terms.maturity),
        0 <= k < terms.schedule().len() - 1,
        is_accrual_of(res, terms, terms.schedule()[k], dc),
    ensures
        res == Some(YearFraction::Zero),
{
    lemma_schedule_shape(terms);
    let s = terms.schedule();
    let t = s[k];
    assert(t.lt(s[k + 1]));
    lemma_first_after(s, t, 0);
    let n = next_coupon_index(s, t);
    assert(n == k + 1) by {
        if n <= k {
            if n < k {
                assert(s[n].lt(s[k]));
            }
        }
    }
}

/// `yf` is the convention's year fraction of the interest accrued from `p` to `settlement`;
/// under Actual/Actual ICMA it holds the days from `p` to settlement, or is zero when `p` is
/// the settlement date.
pub open spec fn accrued_from(yf: YearFraction, dc: DayCount, p: Date, settlement: Date) -> bool {
    if dc == DayCount::ActActICMA {
        &&& p == settlement ==> yf is Zero
        &&& p.lt(settlement) ==> (yf matches YearFraction::Icma { days_held, .. } && days_held
            == actual_days(p, settlement))
    } else {
        is_year_fraction_of(yf, dc, p, settlement)
    }
}

/// Interest accrues from the last coupon date on or before settlement, or from the issue date
/// while no coupon has been paid: the accrual period never starts before the issue date, and
/// the result is the convention's fraction from that date to settlement.
#[verifier::rlimit(40)]
pub proof fn lemma_accrual_from_last_coupon(
    res: Option<YearFraction>,
    terms: CouponTerms,
    settlement: Date,
    dc: DayCount,
)
    requires
        terms.wf(),
        settlement.wf(),
        is_accrual_of(res, terms, settlement, dc),
        res is Some,
    ensures
        exists|p: Date|
            #![trigger p.wf()]
            {
                &&& p.wf()
                &&& p == terms.issue_date || terms.schedule().contains(p)
                &&& terms.issue_date.le(p)
                &&& p.le(settlement)
                &&& forall|j: int|
                    0 <= j < terms.schedule().len() && (#[trigger] terms.schedule()[j]).le(
                        settlement,
                    ) ==> terms.schedule()[j].le(p)
                &&& accrued_from(res.unwrap(), dc, p, settlement)
            },
        dc == DayCount::ActActICMA ==> exists|m: int, r: Date|
            #![trigger is_first_after(terms.schedule(), settlement, m), r.month_index()]
            {
                &&& is_first_after(terms.schedule(), settlement, m)
                &&& r.wf()
                &&& r.lt(terms.schedule()[m])
                &&& r.le(settlement)
                &&& r.month_index() == terms.schedule()[m].month_index() - 12int / (
                terms.frequency as int)
                &&& (res.unwrap() matches YearFraction::Icma { days_in_period, frequency, .. }
                    ==> days_in_period == actual_days(r, terms.schedule()[m]) && frequency
                    == terms.frequency)
            },
{
    let s = terms.schedule();
    let n = next_coupon_index(s, settlement);
    let issue = terms.issue_date;
    let k = terms.coupon_months();
    let eom = terms.eom_rule();
    assert(1 <= terms.frequency <= 12 && issue.lt(settlement) && settlement.lt(terms.maturity));
    assert(s.len() >= 1 && settlement.lt(s[s.len() - 1]) && (forall|i: int|
        0 <= i < s.len() ==> (#[trigger] s[i]).wf() && issue.lt(s[i])) && (forall|i: int, j: int|
        0 <= i < j < s.len() ==> (#[trigger] s[i]).lt(#[trigger] s[j]))) by {
        lemma_schedule_shape(terms);
    }
    lemma_last_on_or_before(s, settlement, issue);
    let p = if n == 0 {
        issue
    } else {
        s[n - 1]
    };
    let yf = res.unwrap();
    assert(accrued_from(yf, dc, p, settlement)) by {
        if dc == DayCount::ActActICMA {
            lemma_coupon_months(terms.frequency);
            lemma_step_after_issue(s[n], issue, k, eom);
            let r = s[n].stepped_back(k, eom);
            lemma_lt_iff_day_number(r, s[n]);
            lemma_lt_iff_day_number(p, settlement);
        }
    }
    assert(p.wf());
    if dc == DayCount::ActActICMA {
        lemma_next_regular_period(terms, settlement);
        let r = terms.spec_reference_period(s[n]).0;
        lemma_day_number_bounds(r);
        lemma_day_number_bounds(s[n]);
        assert(r.month_index() == s[n].month_index() - 12int / (terms.frequency as int));
    }
}

/// In an increasing sequence of dates after `issue` whose last date is after `t`, the date
/// before the first one after `t` (or `issue` when there is none) is the last one on or
/// before `t`.
#[verifier::rlimit(40)]
proof fn lemma_last_on_or_before(s: Seq<Date>, t: Date, issue: Date)
    requires
        s.len() >= 1,
        issue.wf(),
        t.wf(),
        issue.lt(t),
        t.lt(s[s.len() - 1]),
        forall|i: int| 0 <= i < s.len() ==> (#[trigger] s[i]).wf() && issue.lt(s[i]),
        forall|i: int, j: int| 0 <= i < j < s.len() ==> (#[trigger] s[i]).lt(#[trigger] s[j]),
    ensures
        ({
            let n = next_coupon_index(s, t);
            let p = if n == 0 {
                issue
            } else {
                s[n - 1]
            };
            &&& 0 <= n < s.len()
            &&& t.lt(s[n])
            &&& p.wf()
            &&& issue.le(p)
            &&& p.le(t)
            &&& n > 0 ==> s.contains(p)
            &&& forall|j: int| 0 <= j < s.len() && (#[trigger] s[j]).le(t) ==> s[j].le(p)
        }),
{
    lemma_first_after(s, t, 0);
    let n = next_coupon_index(s, t);
    let p = if n == 0 {
        issue
    } else {
        s[n - 1]
    };
    if n > 0 {
        assert(s[n - 1] == p);
    }
    assert forall|j: int| 0 <= j < s.len() && (#[trigger] s[j]).le(t) implies s[j].le(p) by {
        if j >= n {
            if j > n {
                assert(s[n].lt(s[j]));
            }
            lemma_lt_iff_day_number(t, s[n]);
            lemma_lt_iff_day_number(s[n], s[j]);
            lemma_lt_iff_day_number(s[j], t);
        } else if j < n - 1 {
            assert(s[j].lt(s[n - 1]));
        }
    }
}

/// Actual/Actual ISDA accrual needs the settlement date within its range.
pub open spec fn accrual_in_range(terms: CouponTerms, settlement: Date, dc: DayCount) -> bool {
    dc == DayCount::ActActISDA && is_valid_frequency(terms.frequency) && terms.issue_date.lt(
        settlement,
    ) && settlement.lt(terms.maturity) ==> isda_end_in_range(settlement)
}

/// Index of the first schedule date after `settlement`, or 0 when there is none.
fn find_next_coupon(schedule: &Vec<Date>, settlement: &Date) -> (res: usize)
    ensures
        res == next_coupon_index(schedule@, *settlement),
{
    let mut i: usize = 0;
    while i < schedule.len()
        invariant
            i <= schedule@.len(),
            first_after(schedule@, *settlement, 0) == first_after(schedule@, *settlement, i as int),
        decreases schedule@.len() - i,
    {
        if settlement.is_before(&schedule[i]) {
            return i;
        }
        i = i + 1;
    }
    0
}

impl CouponTerms {
    /// The regular coupon period that ends on a coupon date: it starts one regular period
    /// earlier, month ends kept when maturity is a month end.
    pub fn reference_period(&self, cf_date: &Date) -> (res: (Date, Date))
        requires
            self.wf(),
            1 <= self.frequency <= 12,
            cf_date.wf(),
            self.issue_date.lt(*cf_date),
        ensures
            res == self.spec_reference_period(*cf_date),
            res.0.month_index() == cf_date.month_index() - 12int / (self.frequency as int),
            res.0.lt(*cf_date),
            res.0.wf(),
            res.1.wf(),
    {
        let months_back: u32 = 12 / self.frequency;
        proof {
            lemma_coupon_months(self.frequency);
            lemma_step_after_issue(*cf_date, self.issue_date, months_back as int, self.eom_rule());
        }
        let ref_start = cf_date.step_months_backward(months_back, self.maturity.is_month_end_date());
        (ref_start, *cf_date)
    }

    /// The share of the coupon period `[ref_start, ref_end]` from `start` to `end`.
    fn period_fraction(
        &self,
        dc: DayCount,
        start: &Date,
        end: &Date,
        ref_start: &Date,
        ref_end: &Date,
    ) -> (res: PeriodFraction)
        requires
            start.wf(),
            end.wf(),
            ref_start.wf(),
            ref_end.wf(),
        ensures
            is_period_fraction_of(res, dc, *start, *end, *ref_start, *ref_end, self.frequency),
    {
        match dc {
            DayCount::ActActICMA => PeriodFraction::IcmaPeriods {
                fraction: dc.year_fraction_icma(start, end, ref_start, ref_end, self.frequency),
                frequency: self.frequency,
            },
            _ => PeriodFraction::DayRatio {
                days: dc.day_count(start, end),
                period_days: dc.day_count(ref_start, ref_end),
            },
        }
    }

    /// The year fraction over which interest has accrued at `settlement`: from the previous
    /// coupon date (or the issue date) to settlement, measured against the current coupon
    /// period for Actual/Actual ICMA. `None` when no interest accrues: an invalid frequency,
    /// or settlement not strictly between the issue date and maturity.
    pub fn accrual_fraction(&self, settlement: &Date, dc: DayCount) -> (res: Option<YearFraction>)
        requires
            self.wf(),
            settlement.wf(),
            accrual_in_range(*self, *settlement, dc),
        ensures
            is_accrual_of(res, *self, *settlement, dc),
    {
        if !(self.frequency == 1 || self.frequency == 2 || self.frequency == 4 || self.frequency
            == 12) {
            return None;
        }
        if !settlement.is_before(&self.maturity) || !self.issue_date.is_before(settlement) {
            return None;
        }
        let schedule = self.coupon_schedule();
        proof {
            lemma_schedule_shape(*self);
            lemma_first_after(schedule@, *settlement, 0);
            assert(settlement.lt(schedule@[schedule@.len() - 1]));
        }
        let next_idx = find_next_coupon(&schedule, settlement);
        let prev_coupon = if next_idx == 0 {
            self.issue_date
        } else {
            schedule[next_idx - 1]
        };
        let next_coupon = schedule[next_idx];
        let (ref_start, ref_end) = self.reference_period(&next_coupon);
        let year_fraction = match dc {
            DayCount::ActActICMA => dc.year_fraction_icma(
                &prev_coupon,
                settlement,
                &ref_start,
                &ref_end,
                self.frequency,
            ),
            _ => dc.year_fraction(&prev_coupon, settlement),
        };
        Some(year_fraction)
    }

    /// What pricing the bond at `settlement` requires from dates and day counts: the
    /// rejection of invalid input (checked in this order: frequency, yield, settlement after
    /// maturity, settlement before issue), redemption on the maturity date, or the remaining
    /// coupons with their discount periods and stubs and the accrued interest fraction.
    /// `yield_in_range` tells whether the yield to maturity is above -100%.
    pub fn price_plan(&self, settlement: &Date, dc: DayCount, yield_in_range: bool) -> (res: Result<
        CouponPricePlan,
        PricingRejection,
    >)
        requires
            self.wf(),
            settlement.wf(),
            accrual_in_range(*self, *settlement, dc),
        ensures
            is_price_plan_of(res, *self, *settlement, dc, yield_in_range),
    {
        if !(self.frequency == 1 || self.frequency == 2 || self.frequency == 4 || self.frequency
            == 12) {
            return Err(PricingRejection::InvalidFrequency(self.frequency));
        }
        if !yield_in_range {
            return Err(PricingRejection::InvalidYield);
        }
        if self.maturity.is_before(settlement) {
            return Err(
                PricingRejection::SettlementAfterMaturity {
                    settlement: *settlement,
                    maturity: self.maturity,
                },
            );
        }
        if settlement.is_before(&self.issue_date) {
            return Err(PricingRejection::SettlementBeforeIssue);
        }
        if *settlement == self.maturity {
            return Ok(CouponPricePlan::Redemption);
        }
        let schedule = self.coupon_schedule();
        proof {
            lemma_schedule_shape(*self);
            lemma_first_after(schedule@, *settlement, 0);
            assert(settlement.lt(schedule@[schedule@.len() - 1]));
        }
        let next_idx = find_next_coupon(&schedule, settlement);
        let next_coupon = schedule[next_idx];
        let (ref_start, ref_end) = self.reference_period(&next_coupon);
        let periods_to_next = self.period_fraction(
            dc,
            settlement,
            &next_coupon,
            &ref_start,
            &ref_end,
        );
        let schedule_len = schedule.len();
        let payments_remaining = schedule_len - next_idx;
        let mut coupons: Vec<CouponFlow> = Vec::new();
        let mut i: usize = 0;
        while i < payments_remaining
            invariant
                self.wf(),
                1 <= self.frequency <= 12,
                schedule@ == self.schedule(),
                next_idx == next_coupon_index(schedule@, *settlement),
                next_idx < schedule@.len(),
                payments_remaining == schedule@.len() - next_idx,
                schedule_len == schedule@.len(),
                i <= payments_remaining,
                coupons@.len() == i,
                self.issue_date.lt(self.maturity),
                forall|j: int|
                    0 <= j < schedule@.len() ==> (#[trigger] schedule@[j]).wf()
                        && self.issue_date.lt(schedule@[j]),
                forall|j: int|
                    0 <= j < i ==> {
                        let cf = schedule@[next_idx + j];
                        let prev = if next_idx + j == 0 {
                            self.issue_date
                        } else {
                            schedule@[next_idx + j - 1]
                        };
                        &&& (#[trigger] coupons@[j]).date == cf
                        &&& if prev == self.issue_date {
                            coupons@[j].stub matches Some(pf) && is_period_fraction_of(
                                pf,
                                dc,
                                prev,
                                cf,
                                self.spec_reference_period(cf).0,
                                self.spec_reference_period(cf).1,
                                self.frequency,
                            )
                        } else {
                            coupons@[j].stub is None
                        }
                    },
            decreases payments_remaining - i,
        {
            let cf_date = schedule[next_idx + i];
            let cf_prev_date = if next_idx + i == 0 {
                self.issue_date
            } else {
                schedule[next_idx + i - 1]
            };
            let stub = if cf_prev_date == self.issue_date {
                let (cf_ref_start, cf_ref_end) = self.reference_period(&cf_date);
                Some(self.period_fraction(dc, &cf_prev_date, &cf_date, &cf_ref_start, &cf_ref_end))
            } else {
                None
            };
            coupons.push(CouponFlow { date: cf_date, stub });
            i = i + 1;
        }
        let accrual = self.accrual_fraction(settlement, dc);
        Ok(CouponPricePlan::Discounted { periods_to_next, coupons, accrual })
    }
}

/// The year fraction that discounts a zero coupon bond, or why it cannot be priced: an
/// invalid yield first, then settlement on or after maturity. Actual/Actual ICMA has no
/// coupon periods to refer to here and counts as Actual/Actual ISDA.
pub fn zero_coupon_years(
    maturity: &Date,
    settlement: &Date,
    dc: DayCount,
    yield_in_range: bool,
) -> (res: Result<YearFraction, PricingRejection>)
    requires
        maturity.wf(),
        settlement.wf(),
        yield_in_range && settlement.lt(*maturity) && (dc == DayCount::ActActISDA || dc
            == DayCount::ActActICMA) ==> isda_end_in_range(*maturity),
    ensures
        !yield_in_range ==> res == Err::<YearFraction, PricingRejection>(
            PricingRejection::InvalidYield,
        ),
        yield_in_range && !settlement.lt(*maturity) ==> res == Err::<
            YearFraction,
            PricingRejection,
        >(PricingRejection::SettlementAfterMaturity { settlement: *settlement, maturity: *maturity }),
        yield_in_range && settlement.lt(*maturity) ==> (res matches Ok(yf) && is_year_fraction_of(
            yf,
            if dc == DayCount::ActActICMA {
                DayCount::ActActISDA
            } else {
                dc
            },
            *settlement,
            *maturity,
        )),
{
    if !yield_in_range {
        return Err(PricingRejection::InvalidYield);
    }
    if !settlement.is_before(maturity) {
        return Err(
            PricingRejection::SettlementAfterMaturity { settlement: *settlement, maturity: *maturity },
        );
    }
    let years = match dc {
        DayCount::ActActICMA => DayCount::ActActISDA.year_fraction(settlement, maturity),
        _ => dc.year_fraction(settlement, maturity),
    };
    Ok(years)
}

/// Credit spread over the risk-free rate implied by a rating, in basis points.
pub open spec fn rating_spread_bps(rating: Seq<char>) -> u32 {
    if rating == "AAA"@ {
        50
    } else if rating == "AA"@ {
        100
    } else if rating == "A"@ {
        150
    } else if rating == "BBB"@ {
        250
    } else if rating == "BB"@ {
        500
    } else if rating == "B"@ {
        1000
    } else {
        300
    }
}

/// Informational credit spread of a credit rating, in basis points: AAA 50, AA 100, A 150,
/// BBB 250, BB 500, B 1000, any other rating 300.
pub fn credit_spread_bps(rating: &str) -> (res: u32)
    ensures
        res == rating_spread_bps(rating@),
{
    if str_equals(rating, "AAA") {
        50
    } else if str_equals(rating, "AA") {
        100
    } else if str_equals(rating, "A") {
        150
    } else if str_equals(rating, "BBB") {
        250
    } else if str_equals(rating, "BB") {
        500
    } else if str_equals(rating, "B") {
        1000
    } else {
        300
    }
}

} // verus!
