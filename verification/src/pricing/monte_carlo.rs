use vstd::prelude::*;
use crate::cashflows::cashflow::CashFlow;
use crate::error::{ErrorKind, PricingError};
use crate::fixed::{share_of, Fixed};
use crate::instant::Instant;
use crate::instruments::{settled, Value};
use crate::processes::Simulate;

verus! {

/// What the instrument pays on the path that the process walks when driven by
/// `normals`.
pub open spec fn path_payoff<T: Value, U: Simulate>(
    instrument: &T,
    price_process: &U,
    number_of_steps: nat,
    normals: Seq<Fixed>,
) -> Result<CashFlow, PricingError> {
    match price_process.path(number_of_steps, normals) {
        Err(e) => Err(e),
        Ok(price_path) => settled(
            instrument.payoff_amount(price_path),
            instrument.currency(),
            instrument.settlement(),
        ),
    }
}

/// A cash flow of nothing in the instrument's currency at its settlement.
pub open spec fn nothing_yet<T: Value>(instrument: &T) -> CashFlow {
    CashFlow {
        amount: Fixed { raw: 0 },
        currency: instrument.currency(),
        settlement_datetime: instrument.settlement(),
    }
}

/// The sum of the payoffs on the first `k` paths, each path driven by its own
/// row of `normals`; the first failure, in the order of the paths, ends it.
pub open spec fn payoff_total<T: Value, U: Simulate>(
    instrument: &T,
    price_process: &U,
    number_of_steps: nat,
    normals: Seq<Vec<Fixed>>,
    k: nat,
) -> Result<CashFlow, PricingError>
    decreases k,
{
    if k == 0 {
        Ok(nothing_yet(instrument))
    } else {
        match payoff_total(instrument, price_process, number_of_steps, normals, (k - 1) as nat) {
            Err(e) => Err(e),
            Ok(total) => match path_payoff(
                instrument,
                price_process,
                number_of_steps,
                normals[k - 1]@,
            ) {
                Err(e) => Err(e),
                Ok(payoff) => total.spec_add(payoff),
            },
        }
    }
}

/// The Monte Carlo estimate: `NoPaths` for an average over nothing,
/// `DrawCount` unless there is a row of draws for each path, else the sum of
/// the payoffs divided by the number of paths and discounted from settlement
/// to `valuation` at a yearly rate that compounds.
pub open spec fn estimate<T: Value, U: Simulate>(
    instrument: &T,
    price_process: &U,
    annual_discount_rate: Fixed,
    number_of_paths: nat,
    number_of_steps: nat,
    valuation: Instant,
    normals: Seq<Vec<Fixed>>,
) -> Result<CashFlow, PricingError> {
    if number_of_paths == 0 {
        Err(PricingError::NoPaths)
    } else if normals.len() != number_of_paths {
        Err(PricingError::DrawCount)
    } else {
        match payoff_total(instrument, price_process, number_of_steps, normals, number_of_paths) {
            Err(e) => Err(e),
            Ok(total) => match total.with_amount(share_of(total.amount, number_of_paths)) {
                Err(e) => Err(e),
                Ok(average) => average.spec_value_at_date(valuation, annual_discount_rate),
            },
        }
    }
}

/// An average over no paths is no estimate: whatever else is asked for, the
/// outcome is then `NoPaths`, a domain error, and never an amount.
pub proof fn lemma_no_paths_is_a_domain_error<T: Value, U: Simulate>(
    instrument: &T,
    price_process: &U,
    annual_discount_rate: Fixed,
    number_of_steps: nat,
    valuation: Instant,
    normals: Seq<Vec<Fixed>>,
)
    ensures
        estimate(
            instrument,
            price_process,
            annual_discount_rate,
            0,
            number_of_steps,
            valuation,
            normals,
        ) == Err::<CashFlow, PricingError>(PricingError::NoPaths),
        PricingError::NoPaths.spec_kind() == ErrorKind::Domain,
{
}

/// Once a path has failed, every longer sum fails in the same way.
pub proof fn lemma_failure_persists<T: Value, U: Simulate>(
    instrument: &T,
    price_process: &U,
    number_of_steps: nat,
    normals: Seq<Vec<Fixed>>,
    k: nat,
    n: nat,
)
    requires
        k <= n,
        payoff_total(instrument, price_process, number_of_steps, normals, k) is Err,
    ensures
        payoff_total(instrument, price_process, number_of_steps, normals, n) == payoff_total(
            instrument,
            price_process,
            number_of_steps,
            normals,
            k,
        ),
    decreases n,
{
    if k < n {
        lemma_failure_persists(
            instrument,
            price_process,
            number_of_steps,
            normals,
            k,
            (n - 1) as nat,
        );
    }
}

/// Every sum of payoffs is in the instrument's currency and settles when the
/// instrument does.
pub proof fn lemma_total_is_tagged<T: Value, U: Simulate>(
    instrument: &T,
    price_process: &U,
    number_of_steps: nat,
    normals: Seq<Vec<Fixed>>,
    k: nat,
)
    ensures
        match payoff_total(instrument, price_process, number_of_steps, normals, k) {
            Ok(total) => total.currency == instrument.currency() && total.settlement_datetime
                == instrument.settlement(),
            Err(_) => true,
        },
    decreases k,
{
    if k > 0 {
        lemma_total_is_tagged(instrument, price_process, number_of_steps, normals, (k - 1) as nat);
    }
}

/// The instant that the system clock shows: `chrono::Utc::now`, read as its
/// seconds since the epoch (`timestamp`) and the nanoseconds that follow them
/// (`timestamp_subsec_nanos`). Nothing is claimed of the instant, which is
/// whatever the clock says. The clock is taken to be set no earlier than
/// 1970, short of which `chrono` gives up.
#[verifier::external_body]
fn clock_reading() -> (now: Instant) {
    let now = chrono::Utc::now();
    Instant { secs: now.timestamp(), nanos: now.timestamp_subsec_nanos() }
}

/// Prices an instrument by simulation as of now: the estimate of
/// [`monte_carlo_price_at`] with the reading of the system clock as the
/// valuation instant. Whatever the clock reads, no paths, a wrong count of
/// draws and a failure on a path are reported as they are there, and a price
/// is in the instrument's currency.
pub fn monte_carlo_price<T: Value, U: Simulate>(
    instrument: &T,
    price_process: &U,
    annual_discount_rate: Fixed,
    number_of_paths: usize,
    number_of_steps: usize,
    normals: &Vec<Vec<Fixed>>,
) -> (r: Result<CashFlow, PricingError>)
    ensures
        exists|valuation: Instant|
            r == #[trigger] estimate(
                instrument,
                price_process,
                annual_discount_rate,
                number_of_paths as nat,
                number_of_steps as nat,
                valuation,
                normals@,
            ) && (r matches Ok(price) ==> price.settlement_datetime == valuation),
        number_of_paths == 0 ==> r == Err::<CashFlow, PricingError>(PricingError::NoPaths),
        number_of_paths != 0 && normals@.len() != number_of_paths ==> r == Err::<
            CashFlow,
            PricingError,
        >(PricingError::DrawCount),
        number_of_paths != 0 && normals@.len() == number_of_paths ==> match payoff_total(
            instrument,
            price_process,
            number_of_steps as nat,
            normals@,
            number_of_paths as nat,
        ) {
            Err(e) => r == Err::<CashFlow, PricingError>(e),
            Ok(_) => true,
        },
        r matches Ok(price) ==> price.currency == instrument.currency(),
{
    let valuation: Instant = clock_reading();
    monte_carlo_price_at(
        instrument,
        price_process,
        annual_discount_rate,
        number_of_paths,
        number_of_steps,
        valuation,
        normals,
    )
}

/// Prices an instrument by simulation: walks `number_of_paths` paths of
/// `number_of_steps` steps, path `i` driven by the standard-normal draws in
/// `normals[i]`, averages what the instrument pays on them and discounts the
/// average from the instrument's settlement to `valuation`.
pub fn monte_carlo_price_at<T: Value, U: Simulate>(
    instrument: &T,
    price_process: &U,
    annual_discount_rate: Fixed,
    number_of_paths: usize,
    number_of_steps: usize,
    valuation: Instant,
    normals: &Vec<Vec<Fixed>>,
) -> (r: Result<CashFlow, PricingError>)
    ensures
        r == estimate(
            instrument,
            price_process,
            annual_discount_rate,
            number_of_paths as nat,
            number_of_steps as nat,
            valuation,
            normals@,
        ),
        number_of_paths == 0 ==> r == Err::<CashFlow, PricingError>(PricingError::NoPaths),
        r matches Ok(price) ==> price.currency == instrument.currency()
            && price.settlement_datetime == valuation,
{
    if number_of_paths == 0 {
        return Err(PricingError::NoPaths);
    }
    if normals.len() != number_of_paths {
        return Err(PricingError::DrawCount);
    }
    let mut total: CashFlow = CashFlow::new(
        Fixed::zero(),
        instrument.underlying_currency(),
        instrument.settlement_datetime(),
    );
    let mut i: usize = 0;
    while i < number_of_paths
        invariant
            i <= number_of_paths,
            normals@.len() == number_of_paths,
            payoff_total(instrument, price_process, number_of_steps as nat, normals@, i as nat)
                == Ok::<CashFlow, PricingError>(total),
        decreases number_of_paths - i,
    {
        let drawn: Result<CashFlow, PricingError> = payoff_on_path(
            instrument,
            price_process,
            number_of_steps,
            &normals[i],
        );
        let added: Result<CashFlow, PricingError> = match drawn {
            Ok(payoff) => total.add(&payoff),
            Err(e) => Err(e),
        };
        assert(added == payoff_total(
            instrument,
            price_process,
            number_of_steps as nat,
            normals@,
            (i + 1) as nat,
        ));
        match added {
            Ok(next) => {
                total = next;
                i = i + 1;
            },
            Err(e) => {
                proof {
                    lemma_failure_persists(
                        instrument,
                        price_process,
                        number_of_steps as nat,
                        normals@,
                        (i + 1) as nat,
                        number_of_paths as nat,
                    );
                }
                return Err(e);
            },
        }
    }
    proof {
        lemma_total_is_tagged(
            instrument,
            price_process,
            number_of_steps as nat,
            normals@,
            number_of_paths as nat,
        );
    }
    let share: Fixed = total.amount.div_count(number_of_paths)?;
    let average: CashFlow = CashFlow::new(share, total.currency, total.settlement_datetime);
    average.value_at_date(valuation, annual_discount_rate)
}

/// Walks one path and evaluates the instrument on it.
pub fn payoff_on_path<T: Value, U: Simulate>(
    instrument: &T,
    price_process: &U,
    number_of_steps: usize,
    normals: &Vec<Fixed>,
) -> (r: Result<CashFlow, PricingError>)
    ensures
        r == path_payoff(instrument, price_process, number_of_steps as nat, normals@),
{
    let price_path: Vec<Fixed> = price_process.generate_price_path(number_of_steps, normals)?;
    instrument.calculate_payoff(&price_path)
}

} // verus!
