//! Option kinds and the decisions of option strategies that do not depend on prices.
//!
//! Pricing itself is floating point arithmetic and happens outside this crate's verified
//! part; what is decided here is which way an option points, which asset of a basket a
//! rainbow option refers to, when a barrier option pays, and which strategy fits two options.

use vstd::prelude::*;

verus! {

/// Whether an option gives the right to buy or to sell.
#[derive(Clone, Copy, Debug, PartialEq, Eq, Structural)]
pub enum OptionType {
    /// Call option (gives the holder the right to buy the underlying asset)
    Call,
    /// Put option (gives the holder the right to sell the underlying asset)
    Put,
}

/// The opposite option type.
pub open spec fn flipped(t: OptionType) -> OptionType {
    match t {
        OptionType::Call => OptionType::Put,
        OptionType::Put => OptionType::Call,
    }
}

impl OptionType {
    /// The opposite type: Call to Put, Put to Call.
    pub fn flip(&self) -> (res: OptionType)
        ensures
            res == flipped(*self),
    {
        match self {
            OptionType::Call => OptionType::Put,
            OptionType::Put => OptionType::Call,
        }
    }

    /// Whether this is a call.
    pub fn is_call(&self) -> (res: bool)
        ensures
            res == (*self == OptionType::Call),
    {
        match self {
            OptionType::Call => true,
            OptionType::Put => false,
        }
    }

    /// Whether this is a put.
    pub fn is_put(&self) -> (res: bool)
        ensures
            res == (*self == OptionType::Put),
    {
        match self {
            OptionType::Call => false,
            OptionType::Put => true,
        }
    }
}

/// Flipping an option type twice gives it back, and flipping always changes it.
pub proof fn lemma_flip_involution(t: OptionType)
    ensures
        flipped(t) != t,
        flipped(flipped(t)) == t,
{
}

/// The exercise style of an option.
#[derive(Clone, Copy, Debug, PartialEq, Eq, Structural)]
pub enum OptionStyle {
    /// American option (can be exercised at any time)
    American,
    /// European option (default, can be exercised only at expiration)
    European,
    /// Bermudan option (can be exercised at specific dates)
    Bermudan,
    /// Asian option (payoff depends on average price of underlying asset)
    Asian,
    /// Barrier option (payoff depends on whether underlying asset crosses a barrier)
    Barrier,
    /// Binary option (payout is fixed amount or nothing)
    Binary,
    /// Digital option (payout is fixed amount or nothing; also known as cash-or-nothing or asset-or-nothing option)
    Digital,
    /// Lookback option (payoff depends on extrema of underlying asset)
    Lookback,
}

impl Default for OptionStyle {
    /// The default option style is European.
    fn default() -> (res: Self)
        ensures
            res == OptionStyle::European,
    {
        OptionStyle::European
    }
}

/// Simulation schemes for the path of an asset price.
#[derive(Clone, Copy, Debug, PartialEq, Eq, Structural)]
pub enum SimMethod {
    Milstein,
    Euler,
    Log,
}

/// How a Monte Carlo model averages simulated prices.
#[derive(Clone, Copy, Debug, PartialEq, Eq, Structural)]
pub enum AvgMethod {
    Geometric,
    Arithmetic,
}

/// Whether an Asian option's strike is fixed or the average price itself.
#[derive(Clone, Copy, Debug, PartialEq, Eq, Structural)]
pub enum AsianType {
    Fixed,
    Floating,
}

/// The kinds of rainbow options on a basket of assets.
#[derive(Clone, Copy, Debug, PartialEq, Eq, Structural)]
pub enum RainbowType {
    BestOf,
    WorstOf,
    CallOnMax,
    CallOnMin,
    PutOnMax,
    PutOnMin,
    CallOnAvg,
    PutOnAvg,
    AllITM,
    AllOTM,
}

/// Which instrument a rainbow option's payoff refers to.
#[derive(Clone, Copy, Debug, PartialEq, Eq, Structural)]
pub enum Performer {
    /// The best performing asset of the basket.
    Best,
    /// The worst performing asset of the basket.
    Worst,
    /// The basket as a whole.
    Basket,
}

impl RainbowType {
    /// The instrument the option refers to: the best performer for best-of, call-on-max and
    /// put-on-max, the worst performer for worst-of, call-on-min and put-on-min, the basket
    /// otherwise.
    pub fn performer(&self) -> (res: Performer)
        ensures
            res == (match *self {
                RainbowType::BestOf | RainbowType::CallOnMax | RainbowType::PutOnMax => Performer::Best,
                RainbowType::WorstOf | RainbowType::CallOnMin | RainbowType::PutOnMin => Performer::Worst,
                _ => Performer::Basket,
            }),
    {
        match self {
            RainbowType::BestOf | RainbowType::CallOnMax | RainbowType::PutOnMax => Performer::Best,
            RainbowType::WorstOf | RainbowType::CallOnMin | RainbowType::PutOnMin => Performer::Worst,
            _ => Performer::Basket,
        }
    }

    /// The option type a rainbow option of this kind is created with: puts for the put
    /// kinds and for all-out-of-the-money, calls otherwise.
    pub fn default_option_type(&self) -> (res: OptionType)
        ensures
            res == (match *self {
                RainbowType::PutOnMax | RainbowType::PutOnMin | RainbowType::PutOnAvg
                | RainbowType::AllOTM => OptionType::Put,
                _ => OptionType::Call,
            }),
    {
        match self {
            RainbowType::PutOnMax | RainbowType::PutOnMin | RainbowType::PutOnAvg
            | RainbowType::AllOTM => OptionType::Put,
            _ => OptionType::Call,
        }
    }
}

/// Barrier option kinds.
#[derive(Clone, Copy, Debug, PartialEq, Eq, Structural)]
pub enum BarrierType {
    DownAndIn,
    DownAndOut,
    UpAndIn,
    UpAndOut,
}

/// Whether a barrier option of kind `bt` pays on a path that touched the barrier as given.
pub open spec fn barrier_pays(bt: BarrierType, touched_above: bool, touched_below: bool) -> bool {
    match bt {
        BarrierType::DownAndIn => touched_below,
        BarrierType::DownAndOut => !touched_below,
        BarrierType::UpAndIn => touched_above,
        BarrierType::UpAndOut => !touched_above,
    }
}

impl BarrierType {
    /// Whether the option still pays its vanilla payoff, given whether the path touched the
    /// barrier from above (`touched_below`: some price at or below it) or from below
    /// (`touched_above`: some price at or above it).
    pub fn pays(&self, touched_above: bool, touched_below: bool) -> (res: bool)
        ensures
            res == barrier_pays(*self, touched_above, touched_below),
            *self == BarrierType::DownAndIn ==> res == touched_below,
            *self == BarrierType::DownAndOut ==> res == !touched_below,
            *self == BarrierType::UpAndIn ==> res == touched_above,
            *self == BarrierType::UpAndOut ==> res == !touched_above,
    {
        match self {
            BarrierType::DownAndIn => touched_below,
            BarrierType::DownAndOut => !touched_below,
            BarrierType::UpAndIn => touched_above,
            BarrierType::UpAndOut => !touched_above,
        }
    }

    /// Whether a spot price knocks the option out: at or below the barrier for down-and-out,
    /// at or above it for up-and-out; in-options are never knocked out.
    pub fn is_knocked_out(&self, spot_at_or_below: bool, spot_at_or_above: bool) -> (res: bool)
        ensures
            res == (match *self {
                BarrierType::DownAndOut => spot_at_or_below,
                BarrierType::UpAndOut => spot_at_or_above,
                _ => false,
            }),
    {
        match self {
            BarrierType::DownAndOut => spot_at_or_below,
            BarrierType::UpAndOut => spot_at_or_above,
            _ => false,
        }
    }

    /// Whether a path activates the option: some price at or below the barrier for
    /// down-and-in, at or above it for up-and-in; out-options need no activation.
    pub fn is_activated(&self, path_touched_below: bool, path_touched_above: bool) -> (res: bool)
        ensures
            res == (match *self {
                BarrierType::DownAndIn => path_touched_below,
                BarrierType::UpAndIn => path_touched_above,
                _ => true,
            }),
    {
        match self {
            BarrierType::DownAndIn => path_touched_below,
            BarrierType::UpAndIn => path_touched_above,
            _ => true,
        }
    }
}

/// An in-option and its out-counterpart split every path: exactly one of them pays, so
/// their payoffs add up to the vanilla payoff.
pub proof fn lemma_barrier_in_out_parity(touched_above: bool, touched_below: bool)
    ensures
        barrier_pays(BarrierType::DownAndIn, touched_above, touched_below) != barrier_pays(
            BarrierType::DownAndOut,
            touched_above,
            touched_below,
        ),
        barrier_pays(BarrierType::UpAndIn, touched_above, touched_below) != barrier_pays(
            BarrierType::UpAndOut,
            touched_above,
            touched_below,
        ),
{
}

/// A down barrier option looks only at whether the path touched the barrier from above (some
/// price at or below it), an up barrier option only at whether it touched it from below: an
/// in-option pays exactly when that touch happened, an out-option exactly when it did not,
/// whatever the path did on the other side of the barrier.
pub proof fn lemma_barrier_side(touched_above: bool, touched_below: bool, other_side: bool)
    ensures
        barrier_pays(BarrierType::DownAndIn, touched_above, touched_below) == touched_below,
        barrier_pays(BarrierType::DownAndOut, touched_above, touched_below) == !touched_below,
        barrier_pays(BarrierType::UpAndIn, touched_above, touched_below) == touched_above,
        barrier_pays(BarrierType::UpAndOut, touched_above, touched_below) == !touched_above,
        barrier_pays(BarrierType::DownAndIn, other_side, touched_below) == barrier_pays(
            BarrierType::DownAndIn,
            touched_above,
            touched_below,
        ),
        barrier_pays(BarrierType::DownAndOut, other_side, touched_below) == barrier_pays(
            BarrierType::DownAndOut,
            touched_above,
            touched_below,
        ),
        barrier_pays(BarrierType::UpAndIn, touched_above, other_side) == barrier_pays(
            BarrierType::UpAndIn,
            touched_above,
            touched_below,
        ),
        barrier_pays(BarrierType::UpAndOut, touched_above, other_side) == barrier_pays(
            BarrierType::UpAndOut,
            touched_above,
            touched_below,
        ),
{
}

/// What is known of an option when a strategy is chosen for it.
#[derive(Clone, Copy, Debug, PartialEq, Eq, Structural)]
pub struct OptionFlags {
    pub is_call: bool,
    pub itm: bool,
    pub atm: bool,
    pub otm: bool,
}

/// The strategy that fits two options.
#[derive(Clone, Copy, Debug, PartialEq, Eq, Structural)]
pub enum TwoOptionStrategy {
    /// The first option expires earlier: back spread, short the first, long the second.
    CalendarBackSpread,
    LongCallSpread,
    LongPutSpread,
    ShortCallSpread,
    ShortPutSpread,
    /// Straddle of the first option as put and the second as call.
    Straddle,
    /// Straddle of the second option as put and the first as call.
    StraddleSwapped,
    /// Strangle of the second option as put and the first as call.
    Strangle,
    /// Guts, priced as a strangle of the second option as put and the first as call.
    Guts,
    /// No strategy is implemented for the combination.
    Unsupported,
}

/// The strategy chosen for two options: a calendar spread when the first expires earlier,
/// otherwise by the table of call/put and moneyness flags.
pub open spec fn two_option_strategy(
    a: OptionFlags,
    b: OptionFlags,
    first_expires_earlier: bool,
) -> TwoOptionStrategy {
    if first_expires_earlier {
        TwoOptionStrategy::CalendarBackSpread
    } else if a.is_call && b.is_call && !b.itm && !b.atm && a.otm && !b.otm {
        TwoOptionStrategy::LongCallSpread
    } else if !a.is_call && !b.is_call && !b.itm && !b.atm && a.otm && !b.otm {
        TwoOptionStrategy::LongPutSpread
    } else if a.is_call && b.is_call && !a.itm && !b.itm && !a.atm && !b.atm && a.otm && b.otm {
        TwoOptionStrategy::ShortCallSpread
    } else if !a.is_call && !b.is_call && !a.itm && !b.itm && !a.atm && !b.atm && a.otm && b.otm {
        TwoOptionStrategy::ShortPutSpread
    } else if !a.is_call && b.is_call && !a.itm && !b.itm && a.atm && b.atm && !a.otm && !b.otm {
        TwoOptionStrategy::Straddle
    } else if a.is_call && !b.is_call && !a.itm && !b.itm && a.atm && b.atm && !a.otm && !b.otm {
        TwoOptionStrategy::StraddleSwapped
    } else if a.is_call != b.is_call && a.itm && b.itm && !a.atm && !b.atm && !a.otm && !b.otm {
        TwoOptionStrategy::Strangle
    } else if a.is_call != b.is_call && !a.itm && !b.itm && !a.atm && !b.atm && a.otm && b.otm {
        TwoOptionStrategy::Guts
    } else {
        TwoOptionStrategy::Unsupported
    }
}

/// Chooses a strategy for two options from their flags and whether the first expires before
/// the second.
pub fn choose_two_option_strategy(
    first: OptionFlags,
    second: OptionFlags,
    first_expires_earlier: bool,
) -> (res: TwoOptionStrategy)
    ensures
        res == two_option_strategy(first, second, first_expires_earlier),
{
    if first_expires_earlier {
        return TwoOptionStrategy::CalendarBackSpread;
    }
    match (
        first.is_call,
        second.is_call,
        first.itm,
        second.itm,
        first.atm,
        second.atm,
        first.otm,
        second.otm,
    ) {
        (true, true, _, false, _, false, true, false) => TwoOptionStrategy::LongCallSpread,
        (false, false, _, false, _, false, true, false) => TwoOptionStrategy::LongPutSpread,
        (true, true, false, false, false, false, true, true) => TwoOptionStrategy::ShortCallSpread,
        (false, false, false, false, false, false, true, true) => TwoOptionStrategy::ShortPutSpread,
        (false, true, false, false, true, true, false, false) => TwoOptionStrategy::Straddle,
        (true, false, false, false, true, true, false, false) => TwoOptionStrategy::StraddleSwapped,
        (false, true, true, true, false, false, false, false) => TwoOptionStrategy::Strangle,
        (true, false, true, true, false, false, false, false) => TwoOptionStrategy::Strangle,
        (false, true, false, false, false, false, true, true) => TwoOptionStrategy::Guts,
        (true, false, false, false, false, false, true, true) => TwoOptionStrategy::Guts,
        _ => TwoOptionStrategy::Unsupported,
    }
}

/// The strategy with the roles of the two options exchanged: a straddle of the first option
/// as put and the second as call becomes one of the second as put and the first as call;
/// strangles, guts and unsupported pairs stay as they are.
pub open spec fn with_options_swapped(st: TwoOptionStrategy) -> TwoOptionStrategy {
    match st {
        TwoOptionStrategy::Straddle => TwoOptionStrategy::StraddleSwapped,
        TwoOptionStrategy::StraddleSwapped => TwoOptionStrategy::Straddle,
        _ => st,
    }
}

/// For a call and a put with the same expiry, which of them comes first does not change the
/// strategy chosen, only which one plays which role; two out-of-the-money options of opposite
/// types, neither in nor at the money, make guts, and two in-the-money ones a strangle.
pub proof fn lemma_call_put_pair_symmetric(a: OptionFlags, b: OptionFlags)
    requires
        a.is_call != b.is_call,
    ensures
        two_option_strategy(b, a, false) == with_options_swapped(
            two_option_strategy(a, b, false),
        ),
        !a.itm && !b.itm && !a.atm && !b.atm && a.otm && b.otm ==> two_option_strategy(
            a,
            b,
            false,
        ) == TwoOptionStrategy::Guts,
        a.itm && b.itm && !a.atm && !b.atm && !a.otm && !b.otm ==> two_option_strategy(
            a,
            b,
            false,
        ) == TwoOptionStrategy::Strangle,
        !a.itm && !b.itm && a.atm && b.atm && !a.otm && !b.otm ==> {
            let put_first = if a.is_call {
                TwoOptionStrategy::StraddleSwapped
            } else {
                TwoOptionStrategy::Straddle
            };
            two_option_strategy(a, b, false) == put_first
        },
{
}

/// The strategy for an owned stock and one option.
#[derive(Clone, Copy, Debug, PartialEq, Eq, Structural)]
pub enum StockStrategy {
    /// Long stock, short call.
    CoveredCall,
    /// Long stock, long put.
    ProtectivePut,
}

/// A covered call for a call, a protective put for a put.
pub fn choose_stock_strategy(option_type: OptionType) -> (res: StockStrategy)
    ensures
        res == (if option_type == OptionType::Call {
            StockStrategy::CoveredCall
        } else {
            StockStrategy::ProtectivePut
        }),
{
    match option_type {
        OptionType::Call => StockStrategy::CoveredCall,
        OptionType::Put => StockStrategy::ProtectivePut,
    }
}

} // verus!
