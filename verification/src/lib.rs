//! Quantitative finance building blocks whose date and decision logic is verified.

pub mod data;
pub mod fixed_income;
pub mod options;
pub mod portfolio;
mod text;
