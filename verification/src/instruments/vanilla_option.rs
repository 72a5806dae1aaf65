use vstd::prelude::*;
use crate::cashflows::cashflow::CashFlow;
use crate::cashflows::currency::Currency;
use crate::error::PricingError;
use crate::fixed::Fixed;
use crate::instant::Instant;
use crate::instruments::{option_payoff, terminal_payoff, OptionType, Value};

verus! {

/// A European option: the right to buy (call) or sell (put) at the strike.
pub struct VanillaOption {
    pub strike: Fixed,
    pub exercise_datetime: Instant,
    pub settlement_datetime: Instant,
    pub option_type: OptionType,
    pub underlying_currency: Currency,
}

impl VanillaOption {
    /// An option with the given terms.
    pub fn new(
        strike: Fixed,
        exercise_datetime: Instant,
        settlement_datetime: Instant,
        option_type: OptionType,
        underlying_currency: Currency,
    ) -> (r: Self)
        ensures
            r.strike == strike,
            r.exercise_datetime == exercise_datetime,
            r.settlement_datetime == settlement_datetime,
            r.option_type == option_type,
            r.underlying_currency == underlying_currency,
    {
        VanillaOption {
            strike,
            exercise_datetime,
            settlement_datetime,
            option_type,
            underlying_currency,
        }
    }
}

impl Value for VanillaOption {
    open spec fn settlement(&self) -> Instant {
        self.settlement_datetime
    }

    open spec fn currency(&self) -> Currency {
        self.underlying_currency
    }

    /// A vanilla option pays its intrinsic value at the last price of the path.
    open spec fn payoff_amount(&self, price_path: Seq<Fixed>) -> Result<Fixed, PricingError> {
        terminal_payoff(self.option_type, self.strike, price_path)
    }

    fn calculate_payoff(&self, price_path: &Vec<Fixed>) -> (r: Result<CashFlow, PricingError>) {
        let amount: Fixed = option_payoff(self.option_type, self.strike, price_path)?;
        Ok(CashFlow::new(amount, self.underlying_currency, self.settlement_datetime))
    }

    fn settlement_datetime(&self) -> (r: Instant) {
        self.settlement_datetime
    }

    fn underlying_currency(&self) -> (r: Currency) {
        self.underlying_currency
    }
}

} // verus!
