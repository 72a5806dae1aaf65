use vstd::prelude::*;
use crate::cashflows::currency::Currency;
use crate::compounding::{compound_growth, growth_factor, lemma_no_growth_at_zero_rate};
use crate::error::{ErrorKind, PricingError};
use crate::fixed::{
    difference_of,
    in_range,
    lemma_divide_then_multiply,
    lemma_multiply_then_divide,
    lemma_one_is_neutral,
    magnitude,
    product_of,
    quotient_of,
    sum_of,
    Fixed,
    SCALE,
};
use crate::instant::Instant;

verus! {

/// An amount of money in one currency, settled at one instant.
#[derive(Clone, Copy, Debug)]
pub struct CashFlow {
    pub amount: Fixed,
    pub currency: Currency,
    pub settlement_datetime: Instant,
}

impl PartialEq for CashFlow {
    /// Two cash flows are equal where their amounts and their settlement
    /// instants are.
    fn eq(&self, other: &Self) -> (r: bool) {
        self.amount == other.amount && self.settlement_datetime == other.settlement_datetime
    }
}

impl vstd::std_specs::cmp::PartialEqSpecImpl for CashFlow {
    open spec fn obeys_eq_spec() -> bool {
        true
    }

    open spec fn eq_spec(&self, other: &Self) -> bool {
        self.amount == other.amount && self.settlement_datetime == other.settlement_datetime
    }
}

impl CashFlow {
    /// Whether two cash flows may be added or subtracted: the error names
    /// what keeps them apart, the settlement instant before the currency.
    pub open spec fn compatible(self, other: CashFlow) -> Result<(), PricingError> {
        if self.settlement_datetime != other.settlement_datetime {
            Err(PricingError::SettlementMismatch)
        } else if self.currency != other.currency {
            Err(PricingError::CurrencyMismatch)
        } else {
            Ok(())
        }
    }

    /// This cash flow with its amount replaced, where there is one.
    pub open spec fn with_amount(self, amount: Result<Fixed, PricingError>) -> Result<
        CashFlow,
        PricingError,
    > {
        match amount {
            Err(e) => Err(e),
            Ok(a) => Ok(
                CashFlow {
                    amount: a,
                    currency: self.currency,
                    settlement_datetime: self.settlement_datetime,
                },
            ),
        }
    }

    /// Sum of two compatible cash flows.
    pub open spec fn spec_add(self, other: CashFlow) -> Result<CashFlow, PricingError> {
        match self.compatible(other) {
            Err(e) => Err(e),
            Ok(_) => self.with_amount(sum_of(self.amount, other.amount)),
        }
    }

    /// Difference of two compatible cash flows.
    pub open spec fn spec_sub(self, other: CashFlow) -> Result<CashFlow, PricingError> {
        match self.compatible(other) {
            Err(e) => Err(e),
            Ok(_) => self.with_amount(difference_of(self.amount, other.amount)),
        }
    }

    /// This cash flow scaled by a factor.
    pub open spec fn spec_mul(self, multiplier: Fixed) -> Result<CashFlow, PricingError> {
        self.with_amount(product_of(self.amount, multiplier))
    }

    /// This cash flow divided by a number.
    pub open spec fn spec_div(self, divisor: Fixed) -> Result<CashFlow, PricingError> {
        self.with_amount(quotient_of(self.amount, divisor))
    }

    /// This cash flow in another currency, at a conversion rate.
    pub open spec fn spec_convert_to(self, other_currency: Currency, conversion_rate: Fixed) -> Result<
        CashFlow,
        PricingError,
    > {
        match product_of(self.amount, conversion_rate) {
            Err(e) => Err(e),
            Ok(a) => Ok(
                CashFlow {
                    amount: a,
                    currency: other_currency,
                    settlement_datetime: self.settlement_datetime,
                },
            ),
        }
    }

    /// The worth of this cash flow at `valuation`, at a yearly rate that
    /// compounds: the amount divided by the growth over the time from
    /// `valuation` to settlement, or multiplied by the growth since settlement
    /// where `valuation` comes later.
    pub open spec fn spec_value_at_date(self, valuation: Instant, annual_discount_rate: Fixed) -> Result<
        CashFlow,
        PricingError,
    > {
        let seconds = self.settlement_datetime.spec_seconds_since(valuation);
        match growth_factor(annual_discount_rate, magnitude(seconds) as nat) {
            Err(e) => Err(e),
            Ok(growth) => {
                let amount = if seconds >= 0 {
                    quotient_of(self.amount, growth)
                } else {
                    product_of(self.amount, growth)
                };
                match amount {
                    Err(e) => Err(e),
                    Ok(a) => Ok(
                        CashFlow {
                            amount: a,
                            currency: self.currency,
                            settlement_datetime: valuation,
                        },
                    ),
                }
            },
        }
    }

    /// A cash flow of `amount` in `currency`, settled at `settlement_datetime`.
    pub fn new(amount: Fixed, currency: Currency, settlement_datetime: Instant) -> (r: CashFlow)
        ensures
            r.amount == amount,
            r.currency == currency,
            r.settlement_datetime == settlement_datetime,
    {
        CashFlow { amount, currency, settlement_datetime }
    }

    /// This cash flow in another currency, at a conversion rate.
    pub fn convert_to(&self, other_currency: Currency, conversion_rate: Fixed) -> (r: Result<
        CashFlow,
        PricingError,
    >)
        ensures
            r == self.spec_convert_to(other_currency, conversion_rate),
    {
        let amount: Fixed = self.amount.mul(conversion_rate)?;
        Ok(CashFlow::new(amount, other_currency, self.settlement_datetime))
    }

    /// The worth of this cash flow at `valuation`, discounted at a yearly rate
    /// that compounds. The result is settled at `valuation`.
    pub fn value_at_date(&self, valuation: Instant, annual_discount_rate: Fixed) -> (r: Result<
        CashFlow,
        PricingError,
    >)
        ensures
            r == self.spec_value_at_date(valuation, annual_discount_rate),
    {
        let seconds: i128 = self.settlement_datetime.seconds_since(&valuation);
        let amount: Fixed = if seconds >= 0 {
            let growth: Fixed = compound_growth(annual_discount_rate, seconds as u128)?;
            self.amount.div(growth)?
        } else {
            let growth: Fixed = compound_growth(annual_discount_rate, (-seconds) as u128)?;
            self.amount.mul(growth)?
        };
        Ok(CashFlow::new(amount, self.currency, valuation))
    }

    /// Checks that `other` may be added to or subtracted from this cash flow:
    /// both settle at the same instant, in the same currency.
    pub fn validate_operation_with(&self, other: &CashFlow) -> (r: Result<(), PricingError>)
        ensures
            r == self.compatible(*other),
    {
        if self.settlement_datetime != other.settlement_datetime {
            Err(PricingError::SettlementMismatch)
        } else if self.currency != other.currency {
            Err(PricingError::CurrencyMismatch)
        } else {
            Ok(())
        }
    }

    /// Sum of two cash flows of one currency and settlement instant.
    pub fn add(&self, other: &CashFlow) -> (r: Result<CashFlow, PricingError>)
        ensures
            r == self.spec_add(*other),
    {
        self.validate_operation_with(other)?;
        let amount: Fixed = self.amount.add(other.amount)?;
        Ok(CashFlow::new(amount, self.currency, self.settlement_datetime))
    }

    /// Adds `other` to this cash flow, which stays as it was on an error.
    pub fn add_assign(&mut self, other: &CashFlow) -> (r: Result<(), PricingError>)
        ensures
            match r {
                Ok(_) => old(self).spec_add(*other) == Ok::<CashFlow, PricingError>(*final(self)),
                Err(e) => old(self).spec_add(*other) == Err::<CashFlow, PricingError>(e)
                    && *final(self) == *old(self),
            },
    {
        self.validate_operation_with(other)?;
        let amount: Fixed = self.amount.add(other.amount)?;
        self.amount = amount;
        Ok(())
    }

    /// Difference of two cash flows of one currency and settlement instant.
    pub fn sub(&self, other: &CashFlow) -> (r: Result<CashFlow, PricingError>)
        ensures
            r == self.spec_sub(*other),
    {
        self.validate_operation_with(other)?;
        let amount: Fixed = self.amount.sub(other.amount)?;
        Ok(CashFlow::new(amount, self.currency, self.settlement_datetime))
    }

    /// Subtracts `other` from this cash flow, which stays as it was on an
    /// error.
    pub fn sub_assign(&mut self, other: &CashFlow) -> (r: Result<(), PricingError>)
        ensures
            match r {
                Ok(_) => old(self).spec_sub(*other) == Ok::<CashFlow, PricingError>(*final(self)),
                Err(e) => old(self).spec_sub(*other) == Err::<CashFlow, PricingError>(e)
                    && *final(self) == *old(self),
            },
    {
        self.validate_operation_with(other)?;
        let amount: Fixed = self.amount.sub(other.amount)?;
        self.amount = amount;
        Ok(())
    }

    /// This cash flow with its amount multiplied by `multiplier`.
    pub fn mul(self, multiplier: Fixed) -> (r: Result<CashFlow, PricingError>)
        ensures
            r == self.spec_mul(multiplier),
    {
        let amount: Fixed = self.amount.mul(multiplier)?;
        Ok(CashFlow::new(amount, self.currency, self.settlement_datetime))
    }

    /// Multiplies the amount by `multiplier`; nothing changes on an error.
    pub fn mul_assign(&mut self, multiplier: Fixed) -> (r: Result<(), PricingError>)
        ensures
            match r {
                Ok(_) => old(self).spec_mul(multiplier) == Ok::<CashFlow, PricingError>(*final(self)),
                Err(e) => old(self).spec_mul(multiplier) == Err::<CashFlow, PricingError>(e)
                    && *final(self) == *old(self),
            },
    {
        let amount: Fixed = self.amount.mul(multiplier)?;
        self.amount = amount;
        Ok(())
    }

    /// This cash flow with its amount divided by `rhs`: `DivisionByZero` where
    /// `rhs` is zero.
    pub fn div(self, rhs: Fixed) -> (r: Result<CashFlow, PricingError>)
        ensures
            r == self.spec_div(rhs),
    {
        let amount: Fixed = self.amount.div(rhs)?;
        Ok(CashFlow::new(amount, self.currency, self.settlement_datetime))
    }

    /// Divides the amount by `divisor`; nothing changes on an error.
    pub fn div_assign(&mut self, divisor: Fixed) -> (r: Result<(), PricingError>)
        ensures
            match r {
                Ok(_) => old(self).spec_div(divisor) == Ok::<CashFlow, PricingError>(*final(self)),
                Err(e) => old(self).spec_div(divisor) == Err::<CashFlow, PricingError>(e)
                    && *final(self) == *old(self),
            },
    {
        let amount: Fixed = self.amount.div(divisor)?;
        self.amount = amount;
        Ok(())
    }
}

/// Subtracting what was added gives back what there was: for two cash flows
/// of one currency and settlement instant whose sum can be represented,
/// `(a + b) - b` is `a`.
pub proof fn lemma_add_then_sub(a: CashFlow, b: CashFlow)
    requires
        a.currency == b.currency,
        a.settlement_datetime == b.settlement_datetime,
        in_range(a.amount.raw + b.amount.raw),
    ensures
        a.spec_add(b) is Ok,
        a.spec_add(b).unwrap().spec_sub(b) == Ok::<CashFlow, PricingError>(a),
{
}

/// Cash flows that differ in currency or in settlement instant can be
/// neither added nor subtracted: both attempts end in a validation error.
pub proof fn lemma_mismatch_is_refused(a: CashFlow, b: CashFlow)
    requires
        a.currency != b.currency || a.settlement_datetime != b.settlement_datetime,
    ensures
        a.spec_add(b) is Err,
        a.spec_add(b).unwrap_err().spec_kind() == ErrorKind::Validation,
        a.spec_sub(b) is Err,
        a.spec_sub(b).unwrap_err().spec_kind() == ErrorKind::Validation,
{
}

/// At a rate of zero a cash flow is worth its amount at any instant.
pub proof fn lemma_zero_rate_keeps_amount(c: CashFlow, valuation: Instant)
    ensures
        c.spec_value_at_date(valuation, Fixed { raw: 0 }) == Ok::<CashFlow, PricingError>(
            CashFlow { amount: c.amount, currency: c.currency, settlement_datetime: valuation },
        ),
{
    let seconds = c.settlement_datetime.spec_seconds_since(valuation);
    lemma_no_growth_at_zero_rate(magnitude(seconds) as nat);
    lemma_one_is_neutral(c.amount);
}

/// One billionth of a unit, in raw units: what a valuation there and back
/// may miss the amount by.
pub const ROUND_TRIP_TOLERANCE: i128 = 1_000_000_000;

/// Discounting is undone by growing again: a cash flow valued at another
/// instant and then, at the same rate, valued back at its own settlement
/// keeps its currency and misses the amount it started from by no more than
/// a billionth of a unit, wherever the growth between the two instants lies
/// between a billionth and a billion.
pub proof fn lemma_discount_there_and_back(c: CashFlow, valuation: Instant, rate: Fixed)
    requires
        c.spec_value_at_date(valuation, rate) is Ok,
        c.spec_value_at_date(valuation, rate).unwrap().spec_value_at_date(
            c.settlement_datetime,
            rate,
        ) is Ok,
        ({
            let seconds = c.settlement_datetime.spec_seconds_since(valuation);
            let growth = growth_factor(rate, magnitude(seconds) as nat).unwrap();
            ROUND_TRIP_TOLERANCE <= magnitude(growth.raw as int) <= ROUND_TRIP_TOLERANCE * SCALE
        }),
    ensures
        ({
            let back = c.spec_value_at_date(valuation, rate).unwrap().spec_value_at_date(
                c.settlement_datetime,
                rate,
            ).unwrap();
            &&& back.currency == c.currency
            &&& back.settlement_datetime == c.settlement_datetime
            &&& magnitude(back.amount.raw - c.amount.raw) <= ROUND_TRIP_TOLERANCE
        }),
{
    let seconds = c.settlement_datetime.spec_seconds_since(valuation);
    let there = c.spec_value_at_date(valuation, rate).unwrap();
    assert(there.settlement_datetime == valuation);
    assert(valuation.spec_seconds_since(c.settlement_datetime) == -seconds);
    let growth = growth_factor(rate, magnitude(seconds) as nat).unwrap();
    let g = magnitude(growth.raw as int);
    let s: int = 1_000_000_000_000_000_000;
    let t: int = 1_000_000_000;
    let back = there.spec_value_at_date(c.settlement_datetime, rate).unwrap();
    let miss = magnitude(back.amount.raw - c.amount.raw);
    if seconds > 0 {
        lemma_divide_then_multiply(c.amount, growth);
        assert(miss <= t) by (nonlinear_arith)
            requires
                2 * s * miss <= g + s,
                g <= t * s,
                s == 1_000_000_000_000_000_000,
                t == 1_000_000_000,
                miss >= 0,
        ;
    } else if seconds < 0 {
        lemma_multiply_then_divide(c.amount, growth);
        assert(miss <= t) by (nonlinear_arith)
            requires
                2 * g * miss <= g + s,
                t <= g,
                s == 1_000_000_000_000_000_000,
                t == 1_000_000_000,
                miss >= 0,
        ;
    } else {
        assert(growth == Fixed { raw: SCALE });
        lemma_one_is_neutral(c.amount);
    }
}

} // verus!
