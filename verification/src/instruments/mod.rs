use vstd::prelude::*;
use crate::cashflows::cashflow::CashFlow;
use crate::cashflows::currency::Currency;
use crate::error::PricingError;
use crate::fixed::{checked, Fixed};
use crate::instant::Instant;

pub mod barrier_option;
pub mod vanilla_option;

verus! {

/// Which way an option pays: a call above the strike, a put below it.
#[derive(Clone, Copy, Debug, PartialEq, Eq, Structural)]
pub enum OptionType {
    Call,
    Put,
}

/// What an option is worth at exercise, in raw units: a call pays the excess
/// of the terminal price over the strike, a put the excess of the strike over
/// the terminal price, and neither pays less than nothing.
pub open spec fn intrinsic_value(option_type: OptionType, strike: int, terminal: int) -> int {
    match option_type {
        OptionType::Call => if terminal > strike {
            terminal - strike
        } else {
            0
        },
        OptionType::Put => if strike > terminal {
            strike - terminal
        } else {
            0
        },
    }
}

/// The payoff of an option on a finished path: `EmptyPath` where the path
/// holds no price, else the intrinsic value at the last price, where it fits.
pub open spec fn terminal_payoff(option_type: OptionType, strike: Fixed, price_path: Seq<Fixed>) -> Result<
    Fixed,
    PricingError,
> {
    if price_path.len() == 0 {
        Err(PricingError::EmptyPath)
    } else {
        checked(intrinsic_value(option_type, strike.raw as int, price_path.last().raw as int))
    }
}

/// A cash flow of the given amount, where there is one.
pub open spec fn settled(amount: Result<Fixed, PricingError>, currency: Currency, settlement: Instant) -> Result<
    CashFlow,
    PricingError,
> {
    match amount {
        Err(e) => Err(e),
        Ok(a) => Ok(CashFlow { amount: a, currency, settlement_datetime: settlement }),
    }
}

/// The payoff of an option on a finished path: `EmptyPath` where the path
/// holds no price, else the intrinsic value at the last price, where it fits.
pub fn option_payoff(option_type: OptionType, strike: Fixed, price_path: &Vec<Fixed>) -> (r: Result<
    Fixed,
    PricingError,
>)
    ensures
        r == terminal_payoff(option_type, strike, price_path@),
{
    let n: usize = price_path.len();
    if n == 0 {
        return Err(PricingError::EmptyPath);
    }
    let terminal: Fixed = price_path[n - 1];
    match option_type {
        OptionType::Call => if terminal.raw > strike.raw {
            terminal.sub(strike)
        } else {
            Ok(Fixed::zero())
        },
        OptionType::Put => if strike.raw > terminal.raw {
            strike.sub(terminal)
        } else {
            Ok(Fixed::zero())
        },
    }
}

/// A contract that turns a finished price path into a cash flow.
pub trait Value {
    /// The instant at which the contract settles.
    spec fn settlement(&self) -> Instant;

    /// The currency the contract pays in.
    spec fn currency(&self) -> Currency;

    /// The amount the contract pays on a path, or why it pays none.
    spec fn payoff_amount(&self, price_path: Seq<Fixed>) -> Result<Fixed, PricingError>;

    /// The cash flow the contract pays on a path: its payoff amount, in the
    /// contract's currency, at the contract's settlement instant.
    fn calculate_payoff(&self, price_path: &Vec<Fixed>) -> (r: Result<CashFlow, PricingError>)
        ensures
            r == settled(self.payoff_amount(price_path@), self.currency(), self.settlement()),
    ;

    /// The instant at which the contract settles.
    fn settlement_datetime(&self) -> (r: Instant)
        ensures
            r == self.settlement(),
    ;

    /// The currency the contract pays in.
    fn underlying_currency(&self) -> (r: Currency)
        ensures
            r == self.currency(),
    ;
}

/// Put-call parity on payoffs: at any terminal price and strike, what the
/// call pays less what the put pays is the terminal price less the strike;
/// and so it is for the payoffs on a path, wherever both can be represented.
pub proof fn lemma_put_call_parity(strike: Fixed, price_path: Seq<Fixed>)
    requires
        price_path.len() > 0,
    ensures
        intrinsic_value(OptionType::Call, strike.raw as int, price_path.last().raw as int)
            - intrinsic_value(OptionType::Put, strike.raw as int, price_path.last().raw as int)
            == price_path.last().raw - strike.raw,
        terminal_payoff(OptionType::Call, strike, price_path) is Ok && terminal_payoff(
            OptionType::Put,
            strike,
            price_path,
        ) is Ok ==> terminal_payoff(OptionType::Call, strike, price_path).unwrap().raw
            - terminal_payoff(OptionType::Put, strike, price_path).unwrap().raw
            == price_path.last().raw - strike.raw,
{
}

} // verus!
