use vstd::prelude::*;
use crate::cashflows::cashflow::CashFlow;
use crate::cashflows::currency::Currency;
use crate::error::PricingError;
use crate::fixed::{lift_sum, Fixed};
use crate::instant::Instant;
use crate::instruments::vanilla_option::VanillaOption;
use crate::instruments::{option_payoff, terminal_payoff, OptionType, Value};

verus! {

/// An option that comes to life, or dies, when the price reaches a level.
pub struct BarrierOption {
    pub strike: Fixed,
    pub exercise_datetime: Instant,
    pub settlement_datetime: Instant,
    pub option_type: OptionType,
    pub barrier: Barrier,
    pub underlying_currency: Currency,
}

/// A price level and what reaching it does.
pub struct Barrier {
    pub barrier_type: BarrierType,
    pub level: Fixed,
}

/// From which side a barrier is reached (up: from below; down: from above)
/// and what reaching it does (in: the option starts to exist; out: it ceases
/// to).
#[derive(Clone, Copy, Debug, PartialEq, Eq, Structural)]
pub enum BarrierType {
    UpAndIn,
    UpAndOut,
    DownAndIn,
    DownAndOut,
}

impl BarrierType {
    /// Whether the barrier is reached by a price at or above the level.
    pub open spec fn is_up(self) -> bool {
        self == BarrierType::UpAndIn || self == BarrierType::UpAndOut
    }

    /// Whether reaching the barrier brings the option to life.
    pub open spec fn is_knock_in(self) -> bool {
        self == BarrierType::UpAndIn || self == BarrierType::DownAndIn
    }
}

impl Barrier {
    /// Whether a single price reaches the barrier: at or above the level for
    /// an up barrier, at or below it for a down barrier.
    pub open spec fn reached_by(&self, price: Fixed) -> bool {
        if self.barrier_type.is_up() {
            price.raw >= self.level.raw
        } else {
            price.raw <= self.level.raw
        }
    }

    /// Whether any price of the path reaches the barrier.
    pub open spec fn crossed(&self, price_path: Seq<Fixed>) -> bool {
        exists|i: int| 0 <= i < price_path.len() && self.reached_by(#[trigger] price_path[i])
    }

    /// Whether an option behind this barrier is alive at the end of the path:
    /// a knock-in where the barrier was crossed, a knock-out where it was not.
    pub open spec fn in_play(&self, price_path: Seq<Fixed>) -> bool {
        if self.barrier_type.is_knock_in() {
            self.crossed(price_path)
        } else {
            !self.crossed(price_path)
        }
    }

    /// Whether any price of the path reaches the barrier.
    pub fn is_crossed(&self, price_path: &Vec<Fixed>) -> (r: bool)
        ensures
            r == self.crossed(price_path@),
    {
        let up: bool = match self.barrier_type {
            BarrierType::UpAndIn | BarrierType::UpAndOut => true,
            BarrierType::DownAndIn | BarrierType::DownAndOut => false,
        };
        let mut i: usize = 0;
        while i < price_path.len()
            invariant
                i <= price_path.len(),
                up == self.barrier_type.is_up(),
                forall|j: int| 0 <= j < i ==> !self.reached_by(#[trigger] price_path@[j]),
            decreases price_path.len() - i,
        {
            let price: Fixed = price_path[i];
            let reached: bool = if up {
                price.raw >= self.level.raw
            } else {
                price.raw <= self.level.raw
            };
            if reached {
                assert(self.reached_by(price_path@[i as int]));
                return true;
            }
            i = i + 1;
        }
        false
    }
}

impl Value for BarrierOption {
    open spec fn settlement(&self) -> Instant {
        self.settlement_datetime
    }

    open spec fn currency(&self) -> Currency {
        self.underlying_currency
    }

    /// A barrier option pays nothing on an empty path (`EmptyPath`); on any
    /// other, what a vanilla option of its terms pays where it is in play,
    /// and zero where it is not.
    open spec fn payoff_amount(&self, price_path: Seq<Fixed>) -> Result<Fixed, PricingError> {
        if price_path.len() == 0 {
            Err(PricingError::EmptyPath)
        } else if self.barrier.in_play(price_path) {
            terminal_payoff(self.option_type, self.strike, price_path)
        } else {
            Ok(Fixed { raw: 0 })
        }
    }

    fn calculate_payoff(&self, price_path: &Vec<Fixed>) -> (r: Result<CashFlow, PricingError>) {
        if price_path.len() == 0 {
            return Err(PricingError::EmptyPath);
        }
        let barrier_crossed: bool = self.barrier.is_crossed(price_path);
        let in_play: bool = match self.barrier.barrier_type {
            BarrierType::UpAndIn | BarrierType::DownAndIn => barrier_crossed,
            BarrierType::UpAndOut | BarrierType::DownAndOut => !barrier_crossed,
        };
        if in_play {
            let amount: Fixed = option_payoff(self.option_type, self.strike, price_path)?;
            Ok(CashFlow::new(amount, self.underlying_currency, self.settlement_datetime))
        } else {
            Ok(CashFlow::new(Fixed::zero(), self.underlying_currency, self.settlement_datetime))
        }
    }

    fn settlement_datetime(&self) -> (r: Instant) {
        self.settlement_datetime
    }

    fn underlying_currency(&self) -> (r: Currency) {
        self.underlying_currency
    }
}

/// Knock-in and knock-out complete each other: on any path, two barrier
/// options at one level and of one direction, one knocking in and one
/// knocking out, together pay what the vanilla option of their terms pays.
pub proof fn lemma_knock_in_plus_knock_out(
    knock_in: BarrierOption,
    knock_out: BarrierOption,
    vanilla: VanillaOption,
    price_path: Seq<Fixed>,
)
    requires
        knock_in.barrier.barrier_type.is_knock_in(),
        !knock_out.barrier.barrier_type.is_knock_in(),
        knock_in.barrier.barrier_type.is_up() == knock_out.barrier.barrier_type.is_up(),
        knock_in.barrier.level == knock_out.barrier.level,
        knock_in.strike == vanilla.strike,
        knock_out.strike == vanilla.strike,
        knock_in.option_type == vanilla.option_type,
        knock_out.option_type == vanilla.option_type,
    ensures
        lift_sum(knock_in.payoff_amount(price_path), knock_out.payoff_amount(price_path))
            == vanilla.payoff_amount(price_path),
{
    assert forall|i: int| 0 <= i < price_path.len() implies knock_in.barrier.reached_by(
        price_path[i],
    ) == knock_out.barrier.reached_by(price_path[i]) by {}
    assert(knock_in.barrier.crossed(price_path) == knock_out.barrier.crossed(price_path));
}

} // verus!
