# quantrs

A small quantitative finance library (options, fixed income, market data, portfolios)
whose exact logic is written in Verus and proved against its contracts.

## Layout

- `src/` — the verified library.
  - `fixed_income/calendar.rs`: proleptic Gregorian dates as `chrono::NaiveDate` counts them,
    day numbers, month stepping, ISO date parsing.
  - `fixed_income/day_count.rs`: Actual/365F, Actual/360, 30/360 US, 30E/360,
    Actual/Actual ISDA and ICMA day counts and exact year fractions, with their laws.
  - `fixed_income/bonds.rs`: coupon schedules generated backwards from maturity, accrued
    interest periods, and the price plan of a coupon bond (rejections, redemption, coupon
    stubs, discount periods).
  - `options.rs`: option types and styles, rainbow and barrier rules, and the choice of a
    strategy for two options or for a stock and an option.
  - `data.rs`: provider endpoints, request URLs and the errors that provider replies become.
  - `portfolio.rs`: how returns are calculated.
- `tests/` — tests that run the library.
- `app/` — the floating point and I/O parts around the library: option pricing models and
  Greeks, bond discounting, HTTP data providers, CSV portfolio statistics, plotting and the
  Python bindings.

Year fractions and coupon period fractions are returned as exact integer ratios; the floating
point value is computed by the caller.
