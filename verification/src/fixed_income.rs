//! Fixed income: calendar dates, day count conventions and bond cash flow schedules.

pub mod bonds;
pub mod calendar;
pub mod day_count;

pub use bonds::CouponTerms;
pub use calendar::{Date, MAX_YEAR, MIN_YEAR};
pub use day_count::{DayCount, YearFraction, YearPiece};
