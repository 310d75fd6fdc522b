//! Mean-variance portfolios: how returns are computed from prices.

use vstd::prelude::*;

verus! {

/// How returns are computed from consecutive prices.
#[derive(Clone, Copy, Debug, PartialEq, Eq, Structural)]
pub enum ReturnsCalculation {
    /// `(p[t] - p[t-1]) / p[t-1]`
    Simple,
    /// `ln p[t] - ln p[t-1]`
    Log,
}

impl ReturnsCalculation {
    /// The method's name: `"Simple"` or `"Log"`.
    pub fn name(&self) -> (res: String)
        ensures
            res@ == (match *self {
                ReturnsCalculation::Simple => "Simple"@,
                ReturnsCalculation::Log => "Log"@,
            }),
    {
        match self {
            ReturnsCalculation::Simple => String::from_str("Simple"),
            ReturnsCalculation::Log => String::from_str("Log"),
        }
    }
}

} // verus!
