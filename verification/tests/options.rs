use quantrs::options::{
    choose_stock_strategy, choose_two_option_strategy, BarrierType, OptionFlags, OptionStyle,
    OptionType, Performer, RainbowType, StockStrategy, TwoOptionStrategy,
};

#[test]
fn flip_swaps_calls_and_puts() {
    assert_eq!(OptionType::Call.flip(), OptionType::Put);
    assert_eq!(OptionType::Put.flip(), OptionType::Call);
    assert_eq!(OptionType::Call.flip().flip(), OptionType::Call);
    assert!(OptionType::Call.is_call());
    assert!(OptionType::Put.is_put());
    assert!(!OptionType::Put.is_call());
}

#[test]
fn default_style_is_european() {
    assert_eq!(OptionStyle::default(), OptionStyle::European);
}

#[test]
fn rainbow_performers() {
    assert_eq!(RainbowType::BestOf.performer(), Performer::Best);
    assert_eq!(RainbowType::CallOnMax.performer(), Performer::Best);
    assert_eq!(RainbowType::PutOnMax.performer(), Performer::Best);
    assert_eq!(RainbowType::WorstOf.performer(), Performer::Worst);
    assert_eq!(RainbowType::CallOnMin.performer(), Performer::Worst);
    assert_eq!(RainbowType::PutOnMin.performer(), Performer::Worst);
    assert_eq!(RainbowType::CallOnAvg.performer(), Performer::Basket);
    assert_eq!(RainbowType::AllITM.performer(), Performer::Basket);
    assert_eq!(RainbowType::AllOTM.default_option_type(), OptionType::Put);
    assert_eq!(RainbowType::AllITM.default_option_type(), OptionType::Call);
    assert_eq!(RainbowType::PutOnAvg.default_option_type(), OptionType::Put);
}

#[test]
fn barrier_payments() {
    // touched_above, touched_below
    assert!(BarrierType::DownAndIn.pays(false, true));
    assert!(!BarrierType::DownAndIn.pays(true, false));
    assert!(BarrierType::DownAndOut.pays(true, false));
    assert!(!BarrierType::DownAndOut.pays(false, true));
    assert!(BarrierType::UpAndIn.pays(true, false));
    assert!(!BarrierType::UpAndOut.pays(true, true));
    for above in [false, true] {
        for below in [false, true] {
            assert_ne!(BarrierType::DownAndIn.pays(above, below), BarrierType::DownAndOut.pays(above, below));
            assert_ne!(BarrierType::UpAndIn.pays(above, below), BarrierType::UpAndOut.pays(above, below));
        }
    }
    assert!(BarrierType::DownAndOut.is_knocked_out(true, false));
    assert!(!BarrierType::DownAndOut.is_knocked_out(false, true));
    assert!(BarrierType::UpAndOut.is_knocked_out(false, true));
    assert!(!BarrierType::DownAndIn.is_knocked_out(true, true));
    assert!(BarrierType::DownAndIn.is_activated(true, false));
    assert!(!BarrierType::UpAndIn.is_activated(true, false));
    assert!(BarrierType::UpAndOut.is_activated(false, false));
}

fn flags(is_call: bool, itm: bool, atm: bool, otm: bool) -> OptionFlags {
    OptionFlags { is_call, itm, atm, otm }
}

#[test]
fn two_option_strategies() {
    let atm_put = flags(false, false, true, false);
    let atm_call = flags(true, false, true, false);
    let itm_put = flags(false, true, false, false);
    let itm_call = flags(true, true, false, false);
    let otm_put = flags(false, false, false, true);
    let otm_call = flags(true, false, false, true);
    assert_eq!(choose_two_option_strategy(atm_put, atm_call, true), TwoOptionStrategy::CalendarBackSpread);
    assert_eq!(choose_two_option_strategy(atm_put, atm_call, false), TwoOptionStrategy::Straddle);
    assert_eq!(choose_two_option_strategy(atm_call, atm_put, false), TwoOptionStrategy::StraddleSwapped);
    assert_eq!(choose_two_option_strategy(itm_put, itm_call, false), TwoOptionStrategy::Strangle);
    assert_eq!(choose_two_option_strategy(itm_call, itm_put, false), TwoOptionStrategy::Strangle);
    assert_eq!(choose_two_option_strategy(otm_put, otm_call, false), TwoOptionStrategy::Guts);
    assert_eq!(choose_two_option_strategy(otm_call, atm_call, false), TwoOptionStrategy::Unsupported);
    assert_eq!(choose_two_option_strategy(otm_call, itm_call, false), TwoOptionStrategy::Unsupported);
    assert_eq!(
        choose_two_option_strategy(otm_call, flags(true, false, false, false), false),
        TwoOptionStrategy::LongCallSpread
    );
    assert_eq!(
        choose_two_option_strategy(otm_put, flags(false, false, false, false), false),
        TwoOptionStrategy::LongPutSpread
    );
    assert_eq!(choose_two_option_strategy(otm_call, otm_call, false), TwoOptionStrategy::ShortCallSpread);
    assert_eq!(choose_two_option_strategy(otm_put, otm_put, false), TwoOptionStrategy::ShortPutSpread);
}

#[test]
fn stock_strategies() {
    assert_eq!(choose_stock_strategy(OptionType::Call), StockStrategy::CoveredCall);
    assert_eq!(choose_stock_strategy(OptionType::Put), StockStrategy::ProtectivePut);
}
