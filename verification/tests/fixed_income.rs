use quantrs::fixed_income::bonds::{
    credit_spread_bps, zero_coupon_years, CouponPricePlan, PeriodFraction, PricingRejection,
};
use quantrs::fixed_income::{CouponTerms, Date, DayCount, YearFraction, YearPiece};

fn ymd(year: i32, month: u32, day: u32) -> Date {
    Date::from_ymd_opt(year, month, day).unwrap()
}

/// The floating point value of an exact year fraction, summed in order.
fn value(fraction: &YearFraction) -> f64 {
    match fraction {
        YearFraction::Zero => 0.0,
        YearFraction::Ratio { days, basis } => *days as f64 / *basis as f64,
        YearFraction::YearPieces(pieces) => {
            let mut total = 0.0;
            for piece in pieces {
                total += piece.days as f64 / piece.basis as f64;
            }
            total
        }
        YearFraction::Icma { days_held, days_in_period, frequency } => {
            (*days_held as f64 / *days_in_period as f64) / *frequency as f64
        }
        YearFraction::Undefined => f64::NAN,
    }
}

fn year_fraction(dc: DayCount, start: Date, end: Date) -> f64 {
    value(&dc.year_fraction(&start, &end))
}

#[test]
fn test_day_count_enum() {
    assert_eq!(DayCount::Act365F, DayCount::Act365F);

    assert_eq!(DayCount::Thirty360US, DayCount::Thirty360US);
}

#[test]
fn test_act365f_day_count() {
    let start = ymd(2025, 1, 1);

    let end = ymd(2026, 1, 1);

    assert_eq!(DayCount::Act365F.day_count(&start, &end), 365);

    assert_eq!(year_fraction(DayCount::Act365F, start, end), 1.0);
}

#[test]
fn test_act360_day_count() {
    let start = ymd(2025, 1, 1);

    let end = ymd(2025, 4, 1);

    assert_eq!(DayCount::Act360.day_count(&start, &end), 90);

    assert_eq!(year_fraction(DayCount::Act360, start, end), 0.25);
}

#[test]
fn test_thirty360us_same_month() {
    let start = ymd(2025, 1, 15);

    let end = ymd(2025, 1, 25);

    assert_eq!(DayCount::Thirty360US.day_count(&start, &end), 10);

    assert_eq!(year_fraction(DayCount::Thirty360US, start, end), 10.0 / 360.0);
}

#[test]
fn test_thirty360us_different_months() {
    let start = ymd(2025, 1, 1);

    let end = ymd(2025, 7, 1);

    assert_eq!(DayCount::Thirty360US.day_count(&start, &end), 180);

    assert_eq!(year_fraction(DayCount::Thirty360US, start, end), 0.5);
}

#[test]
fn test_thirty360us_end_of_month() {
    let start = ymd(2025, 1, 31);

    let end = ymd(2025, 2, 28);

    assert_eq!(DayCount::Thirty360US.day_count(&start, &end), 28);
}

#[test]
fn test_thirty360us_both_end_of_month() {
    let start = ymd(2025, 1, 31);

    let end = ymd(2025, 3, 31);

    assert_eq!(DayCount::Thirty360US.day_count(&start, &end), 60);
}

#[test]
fn test_thirty360us_february_rules() {
    let start = ymd(2025, 2, 28);

    let end = ymd(2025, 3, 31);

    // NASD rule: the end of February counts as day 30
    assert_eq!(DayCount::Thirty360US.day_count(&start, &end), 30);
}

#[test]
fn test_thirty360e_end_of_month() {
    let start = ymd(2025, 1, 31);

    let end = ymd(2025, 3, 31);

    assert_eq!(DayCount::Thirty360E.day_count(&start, &end), 60);
}

#[test]
fn test_thirty360_us_vs_eu_divergence() {
    // Start date is NOT the 30th or 31st. End date IS the 31st.
    let start = ymd(2025, 1, 29);
    let end = ymd(2025, 3, 31);

    // European rule: if d2 == 31, d2 becomes 30: 360*0 + 30*2 + (30 - 29) = 61 days.
    let eu_days = DayCount::Thirty360E.day_count(&start, &end);
    assert_eq!(eu_days, 61);

    // US rule: d2 == 31 only becomes 30 if d1 >= 30: 360*0 + 30*2 + (31 - 29) = 62 days.
    let us_days = DayCount::Thirty360US.day_count(&start, &end);
    assert_eq!(us_days, 62);

    assert_ne!(
        eu_days, us_days,
        "US and EU 30/360 rules failed to diverge on the d1 < 30 edge case"
    );
}

#[test]
fn test_actact_isda_leap_year() {
    let start = ymd(2023, 12, 20);

    let end = ymd(2024, 3, 3);

    assert_eq!(DayCount::ActActISDA.day_count(&start, &end), 74);

    let expected = 12.0 / 365.0 + 62.0 / 366.0;

    assert!((year_fraction(DayCount::ActActISDA, start, end) - expected).abs() < 1e-12);

    let start = ymd(2024, 2, 28);

    let end = ymd(2024, 2, 29);

    assert_eq!(DayCount::ActActISDA.day_count(&start, &end), 1);

    assert_eq!(year_fraction(DayCount::ActActISDA, start, end), 1.0 / 366.0);
}

#[test]
fn test_actact_isda_non_leap_year() {
    let start = ymd(2025, 12, 31);

    let end = ymd(2026, 3, 3);

    assert_eq!(DayCount::ActActISDA.day_count(&start, &end), 62);

    assert_eq!(year_fraction(DayCount::ActActISDA, start, end), 62.0 / 365.0);
}

#[test]
fn test_actact_icma_regular_period() {
    let ref_start = ymd(2025, 1, 1);

    let ref_end = ymd(2025, 7, 1);

    let settlement = ymd(2025, 4, 1);

    let fraction = value(&DayCount::ActActICMA.year_fraction_icma(
        &settlement,
        &ref_end,
        &ref_start,
        &ref_end,
        2,
    ));

    let expected = (91.0 / 181.0) / 2.0;

    assert!((fraction - expected).abs() < 1e-12);
}

#[test]
fn test_actact_icma_stub_period() {
    let ref_start = ymd(2025, 2, 20);

    let ref_end = ymd(2025, 8, 20);

    let start = ymd(2025, 2, 14);

    let end = ymd(2025, 8, 20);

    let fraction =
        value(&DayCount::ActActICMA.year_fraction_icma(&start, &end, &ref_start, &ref_end, 2));

    let expected = (start.days_until(&end) as f64 / ref_start.days_until(&ref_end) as f64) / 2.0;

    assert!((fraction - expected).abs() < 1e-12);
}

#[test]
fn test_actact_icma_standard_call_returns_nan() {
    let start = ymd(2025, 1, 1);
    let end = ymd(2025, 7, 1);

    // The standard year fraction without reference periods is undefined for ICMA
    let fraction = year_fraction(DayCount::ActActICMA, start, end);

    assert!(
        fraction.is_nan(),
        "Act/Act ICMA should return NaN if called without reference periods"
    );
}

#[test]
fn test_different_day_counts_same_period() {
    let start = ymd(2025, 1, 1);

    let end = ymd(2025, 7, 1);

    let act365f = year_fraction(DayCount::Act365F, start, end);

    let act360 = year_fraction(DayCount::Act360, start, end);

    let thirty = year_fraction(DayCount::Thirty360US, start, end);

    assert_ne!(act365f, act360);
    assert_ne!(act360, thirty);
    assert_eq!(thirty, 0.5);
}

#[test]
fn test_zero_day_period() {
    let date = ymd(2025, 6, 15);

    assert_eq!(DayCount::Act365F.day_count(&date, &date), 0);

    assert_eq!(year_fraction(DayCount::Act365F, date, date), 0.0);
}

#[test]
fn test_short_period() {
    let start = ymd(2025, 6, 15);

    let end = ymd(2025, 6, 16);

    assert_eq!(DayCount::Act365F.day_count(&start, &end), 1);

    assert_eq!(year_fraction(DayCount::Act365F, start, end), 1.0 / 365.0);
}

#[test]
fn test_all_day_count_conventions() {
    let start = ymd(2025, 1, 1);

    let end = ymd(2025, 12, 31);

    let conventions = [
        DayCount::Act365F,
        DayCount::Act360,
        DayCount::Thirty360US,
        DayCount::Thirty360E,
        DayCount::ActActISDA,
    ];

    for convention in &conventions {
        let days = convention.day_count(&start, &end);

        let fraction = year_fraction(*convention, start, end);

        assert!(days > 0, "Day count should be positive for {:?}", convention);

        assert!(fraction > 0.0, "Year fraction should be positive for {:?}", convention);

        assert!(fraction < 2.0, "Year fraction should be reasonable for {:?}", convention);
    }

    // ICMA requires an explicit reference period
    let icma_fraction = value(&DayCount::ActActICMA.year_fraction_icma(
        &start,
        &end,
        &ymd(2025, 1, 1),
        &ymd(2025, 7, 1),
        2,
    ));

    assert!(icma_fraction > 0.0);
    assert!(icma_fraction < 2.0);
}

#[test]
fn test_day_count_consistency() {
    let start = ymd(2025, 3, 15);

    let end = ymd(2025, 9, 15);

    for convention in [DayCount::Act365F, DayCount::Act360, DayCount::Thirty360US] {
        let days = convention.day_count(&start, &end) as f64;

        let fraction = year_fraction(convention, start, end);

        let expected = match convention {
            DayCount::Act365F => days / 365.0,
            DayCount::Act360 => days / 360.0,
            DayCount::Thirty360US => days / 360.0,
            _ => unreachable!(),
        };

        assert!((fraction - expected).abs() < 1e-12);
    }
}

#[test]
fn test_year_fraction_icma_start_after_end_returns_zero() {
    let start = ymd(2025, 6, 1);
    let end = ymd(2025, 1, 1);

    let result = value(&DayCount::ActActICMA.year_fraction_icma(&start, &end, &start, &end, 2));

    assert_eq!(result, 0.0);
}

#[test]
fn test_year_fraction_icma_zero_frequency_returns_zero() {
    let start = ymd(2025, 1, 1);
    let end = ymd(2025, 7, 1);

    let result = value(&DayCount::ActActICMA.year_fraction_icma(&start, &end, &start, &end, 0));

    assert_eq!(result, 0.0);
}

#[test]
fn test_year_fraction_icma_non_icma_fallback() {
    let start = ymd(2025, 1, 1);
    let end = ymd(2025, 7, 1);

    let result = value(&DayCount::Act365F.year_fraction_icma(&start, &end, &start, &end, 2));

    assert_eq!(result, year_fraction(DayCount::Act365F, start, end));
}

// ---------------------------------------------------------------------------
// Exact forms of the year fractions
// ---------------------------------------------------------------------------

#[test]
fn year_fraction_exact_forms() {
    let start = ymd(2023, 12, 20);
    let end = ymd(2024, 3, 3);
    assert_eq!(
        DayCount::ActActISDA.year_fraction(&start, &end),
        YearFraction::YearPieces(vec![
            YearPiece { days: 12, basis: 365 },
            YearPiece { days: 62, basis: 366 },
        ])
    );
    assert_eq!(
        DayCount::Act360.year_fraction(&start, &end),
        YearFraction::Ratio { days: 74, basis: 360 }
    );
    assert_eq!(DayCount::Act365F.year_fraction(&end, &start), YearFraction::Zero);
    assert_eq!(
        DayCount::ActActICMA.year_fraction(&start, &end),
        YearFraction::Undefined
    );
    assert_eq!(
        DayCount::ActActICMA.year_fraction_icma(&start, &end, &start, &start, 2),
        YearFraction::Zero
    );
}

#[test]
fn isda_pieces_over_several_years_add_up() {
    let start = ymd(2023, 7, 1);
    let end = ymd(2026, 2, 1);
    let fraction = DayCount::ActActISDA.year_fraction(&start, &end);
    let pieces = match fraction {
        YearFraction::YearPieces(p) => p,
        other => panic!("unexpected {:?}", other),
    };
    assert_eq!(pieces.len(), 4);
    assert_eq!(pieces[1], YearPiece { days: 366, basis: 366 });
    assert_eq!(pieces[2], YearPiece { days: 365, basis: 365 });
    let total: u32 = pieces.iter().map(|p| p.days).sum();
    assert_eq!(total as i64, start.days_until(&end));
    assert_eq!(total, DayCount::ActActISDA.day_count(&start, &end));
}

#[test]
fn isda_whole_year_is_one() {
    let fraction = DayCount::ActActISDA.year_fraction(&ymd(2024, 1, 1), &ymd(2025, 1, 1));
    assert_eq!(fraction, YearFraction::YearPieces(vec![YearPiece { days: 366, basis: 366 }]));
    assert_eq!(value(&fraction), 1.0);
}

#[test]
fn actual_day_counts_add_up() {
    let a = ymd(2024, 1, 31);
    let b = ymd(2024, 2, 29);
    let c = ymd(2025, 3, 1);
    for dc in [DayCount::Act365F, DayCount::Act360, DayCount::ActActISDA, DayCount::ActActICMA] {
        assert_eq!(dc.day_count(&a, &c), dc.day_count(&a, &b) + dc.day_count(&b, &c));
    }
    assert_eq!(DayCount::Act365F.day_count(&a, &b), 29);
}

#[test]
fn thirty_360_us_can_count_zero_days() {
    // January 30 to January 31: day 31 becomes 30 when the start is day 30.
    assert_eq!(DayCount::Thirty360US.day_count(&ymd(2025, 1, 30), &ymd(2025, 1, 31)), 0);
    assert_eq!(DayCount::Thirty360E.day_count(&ymd(2025, 1, 30), &ymd(2025, 1, 31)), 0);
    // Both ends on the last day of February count as day 30 under the US rule.
    assert_eq!(DayCount::Thirty360US.day_count(&ymd(2024, 2, 29), &ymd(2025, 2, 28)), 360);
    assert_eq!(DayCount::Thirty360E.day_count(&ymd(2024, 2, 29), &ymd(2025, 2, 28)), 359);
}

#[test]
fn thirty_360_conventions_agree_away_from_month_ends() {
    let us = DayCount::Thirty360US;
    let eu = DayCount::Thirty360E;
    for (start, end) in [
        (ymd(2025, 1, 15), ymd(2025, 6, 30)),
        (ymd(2025, 1, 31), ymd(2025, 3, 31)),
        (ymd(2025, 1, 30), ymd(2026, 2, 28)),
    ] {
        assert_eq!(us.day_count(&start, &end), eu.day_count(&start, &end));
    }
    assert_eq!(us.day_count(&ymd(2025, 1, 31), &ymd(2025, 3, 31)), 60);
    assert_eq!(us.day_count(&ymd(2025, 2, 28), &ymd(2025, 3, 15)), 15);
    assert_eq!(eu.day_count(&ymd(2025, 2, 28), &ymd(2025, 3, 15)), 17);
}

#[test]
fn day_count_names_in_any_case() {
    assert_eq!(DayCount::from_name("act/360"), Some(DayCount::Act360));
    assert_eq!(DayCount::from_name("Act/Act ISDA"), Some(DayCount::ActActISDA));
    assert_eq!(DayCount::from_name("actacticma"), Some(DayCount::ActActICMA));
    assert_eq!(DayCount::from_name("30/360us"), Some(DayCount::Thirty360US));
    assert_eq!(DayCount::from_name("30360E"), Some(DayCount::Thirty360E));
    assert_eq!(DayCount::from_name("ACT365F"), Some(DayCount::Act365F));
    assert_eq!(DayCount::from_name("ACT/365"), None);
    assert_eq!(DayCount::from_upper_name("act/360"), None);
}

// ---------------------------------------------------------------------------
// Calendar
// ---------------------------------------------------------------------------

#[test]
fn dates_and_their_order() {
    assert!(Date::from_ymd_opt(2024, 2, 29).is_some());
    assert!(Date::from_ymd_opt(2025, 2, 29).is_none());
    assert!(Date::from_ymd_opt(2025, 13, 1).is_none());
    assert!(Date::from_ymd_opt(262143, 1, 1).is_none());
    assert!(Date::from_ymd_opt(-262143, 1, 1).is_some());
    assert!(ymd(2024, 12, 31).is_before(&ymd(2025, 1, 1)));
    assert!(!ymd(2025, 1, 1).is_before(&ymd(2025, 1, 1)));
    assert!(ymd(2025, 1, 1).is_on_or_before(&ymd(2025, 1, 1)));
    assert_eq!(ymd(1970, 1, 1).days_until(&ymd(1, 1, 1)), -719_162);
    assert_eq!(ymd(2025, 1, 1).days_until(&ymd(2024, 1, 1)), -366);
    assert!(ymd(2000, 6, 1).is_leap_year());
    assert!(!ymd(1900, 6, 1).is_leap_year());
}

#[test]
fn parsing_iso_dates() {
    assert_eq!(Date::parse_iso("2025-01-31").unwrap(), ymd(2025, 1, 31));
    assert_eq!(Date::parse_iso("2024-02-29").unwrap(), ymd(2024, 2, 29));
    assert!(Date::parse_iso("2025-02-29").is_err());
    assert!(Date::parse_iso("2025-13-01").is_err());
    assert!(Date::parse_iso("31/01/2025").is_err());
    assert!(Date::parse_iso("").is_err());
}

#[test]
fn month_ends() {
    assert!(ymd(2024, 2, 29).is_month_end_date());
    assert!(!ymd(2024, 2, 28).is_month_end_date());
    assert!(ymd(2025, 2, 28).is_month_end_date());
    assert!(ymd(2025, 12, 31).is_month_end_date());
    // The last date chrono can represent has no successor and counts as no month end.
    assert!(!ymd(262142, 12, 31).is_month_end_date());
}

#[test]
fn stepping_months_backward() {
    assert_eq!(ymd(2025, 3, 31).step_months_backward(1, false), ymd(2025, 2, 28));
    assert_eq!(ymd(2025, 3, 30).step_months_backward(1, true), ymd(2025, 2, 28));
    assert_eq!(ymd(2025, 1, 15).step_months_backward(6, false), ymd(2024, 7, 15));
    assert_eq!(ymd(2024, 2, 29).step_months_backward(12, false), ymd(2023, 2, 28));
    assert_eq!(ymd(2025, 6, 30).step_months_backward(3, true), ymd(2025, 3, 31));
    assert_eq!(ymd(2025, 6, 30).step_months_backward(3, false), ymd(2025, 3, 30));
    assert_eq!(ymd(2025, 12, 31).step_months_backward(12, true), ymd(2024, 12, 31));
}

// ---------------------------------------------------------------------------
// Coupon schedules and pricing plans
// ---------------------------------------------------------------------------

fn terms(issue: Date, maturity: Date, frequency: u32) -> CouponTerms {
    CouponTerms { issue_date: issue, maturity, frequency }
}

#[test]
fn semi_annual_schedule() {
    let t = terms(ymd(2025, 1, 1), ymd(2030, 1, 1), 2);
    let schedule = t.coupon_schedule();
    assert_eq!(schedule.len(), 10);
    assert_eq!(schedule[0], ymd(2025, 7, 1));
    assert_eq!(schedule[1], ymd(2026, 1, 1));
    assert_eq!(schedule[9], ymd(2030, 1, 1));
    for pair in schedule.windows(2) {
        assert!(pair[0].is_before(&pair[1]));
    }
}

#[test]
fn short_stub_schedule_keeps_month_ends() {
    let t = terms(ymd(2025, 1, 15), ymd(2030, 12, 31), 2);
    let schedule = t.coupon_schedule();
    assert_eq!(schedule[0], ymd(2025, 6, 30));
    assert_eq!(schedule[1], ymd(2025, 12, 31));
    assert_eq!(schedule.len(), 12);
    assert_eq!(t.reference_period(&schedule[0]), (ymd(2024, 12, 31), ymd(2025, 6, 30)));
}

#[test]
fn degenerate_schedules() {
    assert!(terms(ymd(2025, 1, 1), ymd(2030, 1, 1), 0).coupon_schedule().is_empty());
    let after_issue = terms(ymd(2030, 6, 1), ymd(2030, 1, 1), 4).coupon_schedule();
    assert_eq!(after_issue, vec![ymd(2030, 1, 1)]);
    let monthly = terms(ymd(2025, 1, 31), ymd(2025, 5, 31), 12).coupon_schedule();
    assert_eq!(
        monthly,
        vec![ymd(2025, 2, 28), ymd(2025, 3, 31), ymd(2025, 4, 30), ymd(2025, 5, 31)]
    );
}

#[test]
fn price_plan_rejections_in_order() {
    let good = terms(ymd(2020, 1, 1), ymd(2030, 1, 1), 2);
    let bad_freq = terms(ymd(2020, 1, 1), ymd(2030, 1, 1), 3);
    let zero_freq = terms(ymd(2020, 1, 1), ymd(2030, 1, 1), 0);
    let settle = ymd(2025, 1, 1);
    assert_eq!(
        bad_freq.price_plan(&settle, DayCount::Act365F, false),
        Err(PricingRejection::InvalidFrequency(3))
    );
    assert_eq!(
        zero_freq.price_plan(&settle, DayCount::Act365F, true),
        Err(PricingRejection::InvalidFrequency(0))
    );
    assert_eq!(
        good.price_plan(&settle, DayCount::Act365F, false),
        Err(PricingRejection::InvalidYield)
    );
    assert_eq!(
        good.price_plan(&ymd(2031, 1, 1), DayCount::Act365F, true),
        Err(PricingRejection::SettlementAfterMaturity {
            settlement: ymd(2031, 1, 1),
            maturity: ymd(2030, 1, 1),
        })
    );
    assert_eq!(
        good.price_plan(&ymd(2019, 12, 1), DayCount::Act365F, true),
        Err(PricingRejection::SettlementBeforeIssue)
    );
    assert_eq!(
        good.price_plan(&ymd(2030, 1, 1), DayCount::Act360, true),
        Ok(CouponPricePlan::Redemption)
    );
}

#[test]
fn price_plan_regular_coupons() {
    let t = terms(ymd(2025, 1, 1), ymd(2030, 1, 1), 2);
    let settlement = ymd(2025, 4, 1);
    let plan = t.price_plan(&settlement, DayCount::ActActICMA, true).unwrap();
    match plan {
        CouponPricePlan::Discounted { periods_to_next, coupons, accrual } => {
            assert_eq!(
                periods_to_next,
                PeriodFraction::IcmaPeriods {
                    fraction: YearFraction::Icma { days_held: 91, days_in_period: 181, frequency: 2 },
                    frequency: 2,
                }
            );
            assert_eq!(coupons.len(), 10);
            assert_eq!(coupons[0].date, ymd(2025, 7, 1));
            // The first coupon follows the issue date: it is paid as a (full length) stub.
            assert!(coupons[0].stub.is_some());
            assert!(coupons[1..].iter().all(|c| c.stub.is_none()));
            assert_eq!(
                accrual,
                Some(YearFraction::Icma { days_held: 90, days_in_period: 181, frequency: 2 })
            );
        }
        other => panic!("unexpected {:?}", other),
    }
}

#[test]
fn price_plan_mid_life_thirty_360() {
    let t = terms(ymd(2020, 1, 15), ymd(2030, 1, 15), 2);
    let settlement = ymd(2025, 4, 15);
    let plan = t.price_plan(&settlement, DayCount::Thirty360US, true).unwrap();
    match plan {
        CouponPricePlan::Discounted { periods_to_next, coupons, accrual } => {
            assert_eq!(periods_to_next, PeriodFraction::DayRatio { days: 90, period_days: 180 });
            assert_eq!(coupons.len(), 10);
            assert_eq!(coupons[0].date, ymd(2025, 7, 15));
            assert!(coupons.iter().all(|c| c.stub.is_none()));
            assert_eq!(accrual, Some(YearFraction::Ratio { days: 90, basis: 360 }));
        }
        other => panic!("unexpected {:?}", other),
    }
}

#[test]
fn accrual_at_boundaries() {
    let t = terms(ymd(2020, 1, 1), ymd(2030, 1, 1), 2);
    assert_eq!(t.accrual_fraction(&ymd(2020, 1, 1), DayCount::Act365F), None);
    assert_eq!(t.accrual_fraction(&ymd(2030, 1, 1), DayCount::Act365F), None);
    let bad = terms(ymd(2020, 1, 1), ymd(2030, 1, 1), 3);
    assert_eq!(bad.accrual_fraction(&ymd(2025, 1, 1), DayCount::Act365F), None);
    assert_eq!(
        t.accrual_fraction(&ymd(2025, 3, 1), DayCount::Act365F),
        Some(YearFraction::Ratio { days: 59, basis: 365 })
    );
}

#[test]
fn no_accrual_on_coupon_dates() {
    let t = terms(ymd(2020, 1, 1), ymd(2030, 1, 1), 2);
    for dc in [DayCount::Act365F, DayCount::Thirty360US, DayCount::ActActISDA, DayCount::ActActICMA] {
        assert_eq!(t.accrual_fraction(&ymd(2025, 7, 1), dc), Some(YearFraction::Zero));
        assert_eq!(t.accrual_fraction(&ymd(2020, 7, 1), dc), Some(YearFraction::Zero));
    }
}

#[test]
fn zero_coupon_years_decisions() {
    let maturity = ymd(2030, 12, 31);
    let settlement = ymd(2025, 6, 19);
    assert_eq!(
        zero_coupon_years(&maturity, &settlement, DayCount::Act365F, false),
        Err(PricingRejection::InvalidYield)
    );
    assert_eq!(
        zero_coupon_years(&maturity, &ymd(2031, 1, 1), DayCount::Act365F, true),
        Err(PricingRejection::SettlementAfterMaturity {
            settlement: ymd(2031, 1, 1),
            maturity,
        })
    );
    assert_eq!(
        zero_coupon_years(&maturity, &maturity, DayCount::Act365F, true),
        Err(PricingRejection::SettlementAfterMaturity { settlement: maturity, maturity })
    );
    let icma = zero_coupon_years(&ymd(2030, 1, 1), &ymd(2025, 1, 1), DayCount::ActActICMA, true);
    let isda = DayCount::ActActISDA.year_fraction(&ymd(2025, 1, 1), &ymd(2030, 1, 1));
    assert_eq!(icma, Ok(isda));
}

#[test]
fn credit_spreads_in_basis_points() {
    assert_eq!(credit_spread_bps("AAA"), 50);
    assert_eq!(credit_spread_bps("AA"), 100);
    assert_eq!(credit_spread_bps("A"), 150);
    assert_eq!(credit_spread_bps("BBB"), 250);
    assert_eq!(credit_spread_bps("BB"), 500);
    assert_eq!(credit_spread_bps("B"), 1000);
    assert_eq!(credit_spread_bps("CCC"), 300);
    assert_eq!(credit_spread_bps("bbb"), 300);
    assert_eq!(credit_spread_bps("BBB") as f64 / 10_000.0, 0.025);
}
