use vstd::prelude::*;
use crate::error::PricingError;
use crate::fixed::{
    floor_sqrt,
    is_floor_sqrt,
    lemma_floor_sqrt_unique,
    lemma_one_is_neutral,
    lemma_product_with_one_or_less,
    lemma_product_with_one_or_more,
    lemma_root_of_one_or_less,
    lemma_root_of_one_or_more,
    product_of,
    root_of,
    sum_of,
    Fixed,
    SCALE,
};

verus! {

/// Seconds in a year of 365.25 days.
pub const SECONDS_PER_YEAR: u64 = 31_557_600;

/// Binary digits of a fraction of a year that compounding takes into account.
pub const FRACTION_DIGITS: u32 = 60;

/// `acc` multiplied `n` times by `base`, each product rounded to nearest.
pub open spec fn whole_power(acc: Fixed, base: Fixed, n: nat) -> Result<Fixed, PricingError>
    decreases n,
{
    if n == 0 {
        Ok(acc)
    } else {
        match product_of(acc, base) {
            Err(e) => Err(e),
            Ok(next) => whole_power(next, base, (n - 1) as nat),
        }
    }
}

/// `acc` multiplied by `root` raised to the fraction
/// `numerator / SECONDS_PER_YEAR`, read binary digit by binary digit: each
/// digit halves the exponent by one more square root, and a digit that is set
/// multiplies the root in. Stops after `digits` digits or once nothing of the
/// fraction is left.
pub open spec fn fraction_power(acc: Fixed, root: Fixed, numerator: nat, digits: nat) -> Result<
    Fixed,
    PricingError,
>
    decreases digits,
{
    if digits == 0 || numerator == 0 {
        Ok(acc)
    } else {
        match root_of(root) {
            Err(e) => Err(e),
            Ok(r) => {
                if 2 * numerator >= SECONDS_PER_YEAR {
                    match product_of(acc, r) {
                        Err(e) => Err(e),
                        Ok(next) => fraction_power(
                            next,
                            r,
                            (2 * numerator - SECONDS_PER_YEAR) as nat,
                            (digits - 1) as nat,
                        ),
                    }
                } else {
                    fraction_power(acc, r, 2 * numerator, (digits - 1) as nat)
                }
            },
        }
    }
}

/// Growth of one unit at `rate` a year, compounded over `seconds`:
/// `(1 + rate)` raised to `seconds / SECONDS_PER_YEAR`. The whole years are
/// multiplied out one by one; what is left of a year is multiplied in by
/// square roots. A base below zero has no fractional power: `NegativeRoot`.
pub open spec fn growth_factor(rate: Fixed, seconds: nat) -> Result<Fixed, PricingError> {
    match sum_of(Fixed { raw: SCALE }, rate) {
        Err(e) => Err(e),
        Ok(base) => match whole_power(
            Fixed { raw: SCALE },
            base,
            seconds / (SECONDS_PER_YEAR as nat),
        ) {
            Err(e) => Err(e),
            Ok(whole) => fraction_power(
                whole,
                base,
                seconds % (SECONDS_PER_YEAR as nat),
                FRACTION_DIGITS as nat,
            ),
        },
    }
}

/// Growth of one unit at `rate` a year, compounded over `seconds`.
pub fn compound_growth(rate: Fixed, seconds: u128) -> (r: Result<Fixed, PricingError>)
    ensures
        r == growth_factor(rate, seconds as nat),
{
    let base: Fixed = Fixed::one().add(rate)?;
    if base.raw == SCALE {
        proof {
            lemma_no_growth_at_zero_rate(seconds as nat);
        }
        return Ok(base);
    }
    let years: u128 = seconds / (SECONDS_PER_YEAR as u128);
    let rest: u64 = (seconds % (SECONDS_PER_YEAR as u128)) as u64;
    let mut acc: Fixed = Fixed::one();
    let mut done: u128 = 0;
    while done < years
        invariant
            done <= years,
            years == seconds / (SECONDS_PER_YEAR as u128),
            sum_of(Fixed { raw: SCALE }, rate) == Ok::<Fixed, PricingError>(base),
            whole_power(acc, base, (years - done) as nat) == whole_power(
                Fixed { raw: SCALE },
                base,
                years as nat,
            ),
        decreases years - done,
    {
        acc = acc.mul(base)?;
        done = done + 1;
    }
    let ghost whole = acc;
    let mut root: Fixed = base;
    let mut left: u64 = rest;
    let mut digits: u32 = FRACTION_DIGITS;
    while digits > 0 && left > 0
        invariant
            left < SECONDS_PER_YEAR,
            digits <= FRACTION_DIGITS,
            rest == seconds % (SECONDS_PER_YEAR as u128),
            years == seconds / (SECONDS_PER_YEAR as u128),
            sum_of(Fixed { raw: SCALE }, rate) == Ok::<Fixed, PricingError>(base),
            whole_power(Fixed { raw: SCALE }, base, years as nat) == Ok::<Fixed, PricingError>(
                whole,
            ),
            fraction_power(acc, root, left as nat, digits as nat) == fraction_power(
                whole,
                base,
                rest as nat,
                FRACTION_DIGITS as nat,
            ),
        decreases digits,
    {
        root = root.sqrt()?;
        if 2 * left >= SECONDS_PER_YEAR {
            acc = acc.mul(root)?;
            left = 2 * left - SECONDS_PER_YEAR;
        } else {
            left = 2 * left;
        }
        digits = digits - 1;
    }
    Ok(acc)
}

/// At no interest, nothing grows: the factor over any span is one.
pub proof fn lemma_no_growth_at_zero_rate(seconds: nat)
    ensures
        growth_factor(Fixed { raw: 0 }, seconds) == Ok::<Fixed, PricingError>(Fixed { raw: SCALE }),
{
    lemma_whole_power_of_one(seconds / (SECONDS_PER_YEAR as nat));
    lemma_fraction_power_of_one(seconds % (SECONDS_PER_YEAR as nat), FRACTION_DIGITS as nat);
}

/// Any whole power of one is one.
pub proof fn lemma_whole_power_of_one(n: nat)
    ensures
        whole_power(Fixed { raw: SCALE }, Fixed { raw: SCALE }, n) == Ok::<Fixed, PricingError>(
            Fixed { raw: SCALE },
        ),
    decreases n,
{
    lemma_one_is_neutral(Fixed { raw: SCALE });
    if n > 0 {
        lemma_whole_power_of_one((n - 1) as nat);
    }
}

/// The square root of one is one.
pub proof fn lemma_root_of_one()
    ensures
        root_of(Fixed { raw: SCALE }) == Ok::<Fixed, PricingError>(Fixed { raw: SCALE }),
{
    let n: int = 1_000_000_000_000_000_000int * 1_000_000_000_000_000_000int;
    assert(n == 1_000_000_000_000_000_000_000_000_000_000_000_000);
    assert(is_floor_sqrt(n, 1_000_000_000_000_000_000)) by {
        assert(1_000_000_000_000_000_001int * 1_000_000_000_000_000_001int
            == 1_000_000_000_000_000_002_000_000_000_000_000_001);
    }
    lemma_floor_sqrt_unique(n, 1_000_000_000_000_000_000, floor_sqrt(n));
}

/// Any fractional power of one is one.
pub proof fn lemma_fraction_power_of_one(numerator: nat, digits: nat)
    ensures
        fraction_power(Fixed { raw: SCALE }, Fixed { raw: SCALE }, numerator, digits) == Ok::<
            Fixed,
            PricingError,
        >(Fixed { raw: SCALE }),
    decreases digits,
{
    lemma_one_is_neutral(Fixed { raw: SCALE });
    lemma_root_of_one();
    if digits > 0 && numerator > 0 {
        if 2 * numerator >= SECONDS_PER_YEAR {
            lemma_fraction_power_of_one(
                (2 * numerator - SECONDS_PER_YEAR) as nat,
                (digits - 1) as nat,
            );
        } else {
            lemma_fraction_power_of_one(2 * numerator, (digits - 1) as nat);
        }
    }
}

/// At a rate that is not negative, multiplying by the base never makes less.
pub proof fn lemma_whole_power_grows(acc: Fixed, base: Fixed, n: nat)
    requires
        acc.raw >= 0,
        base.raw >= SCALE,
        whole_power(acc, base, n) is Ok,
    ensures
        acc.raw <= whole_power(acc, base, n).unwrap().raw,
    decreases n,
{
    if n > 0 {
        lemma_product_with_one_or_more(acc, base);
        lemma_whole_power_grows(product_of(acc, base).unwrap(), base, (n - 1) as nat);
    }
}

/// At a rate that is not negative, the growth over part of a year lies
/// between no growth and the growth over the whole year: what
/// `fraction_power` gives is at least `acc`, and at most `acc` times `root`
/// and half a unit of `root` for each digit.
pub proof fn lemma_fraction_power_is_bracketed(acc: Fixed, root: Fixed, numerator: nat, digits: nat)
    requires
        acc.raw >= 0,
        root.raw >= SCALE,
        fraction_power(acc, root, numerator, digits) is Ok,
    ensures
        acc.raw <= fraction_power(acc, root, numerator, digits).unwrap().raw,
        2 * fraction_power(acc, root, numerator, digits).unwrap().raw * SCALE <= 2 * acc.raw
            * root.raw + digits * root.raw,
    decreases digits,
{
    let s: int = 1_000_000_000_000_000_000;
    let a: int = acc.raw as int;
    let x: int = root.raw as int;
    let g: int = fraction_power(acc, root, numerator, digits).unwrap().raw as int;
    if digits == 0 || numerator == 0 {
        assert(2 * a * s <= 2 * a * x + digits * x) by (nonlinear_arith)
            requires
                a >= 0,
                x >= s,
                s > 0,
                digits >= 0,
        ;
    } else {
        lemma_root_of_one_or_more(root);
        let r = root_of(root).unwrap();
        let y: int = r.raw as int;
        let d1: int = digits - 1;
        if 2 * numerator >= SECONDS_PER_YEAR {
            lemma_product_with_one_or_more(acc, r);
            let next = product_of(acc, r).unwrap();
            let b: int = next.raw as int;
            lemma_fraction_power_is_bracketed(
                next,
                r,
                (2 * numerator - SECONDS_PER_YEAR) as nat,
                (digits - 1) as nat,
            );
            let by: int = b * y;
            let ay: int = a * y;
            let yy: int = y * y;
            let ax: int = a * x;
            assert(2 * by * s <= 2 * (a * yy) + s * y) by (nonlinear_arith)
                requires
                    2 * b * s <= 2 * a * y + s,
                    by == b * y,
                    yy == y * y,
                    y >= 0,
            ;
            assert(a * yy <= ax * s) by (nonlinear_arith)
                requires
                    yy <= x * s,
                    a >= 0,
                    ax == a * x,
            ;
            assert(2 * by <= 2 * ax + y);
            assert(2 * b * y == 2 * by && 2 * a * x == 2 * ax && d1 * y <= d1 * x && digits * x
                == d1 * x + x) by (nonlinear_arith)
                requires
                    by == b * y,
                    ax == a * x,
                    0 <= y <= x,
                    d1 >= 0,
                    digits == d1 + 1,
            ;
        } else {
            lemma_fraction_power_is_bracketed(acc, r, 2 * numerator, (digits - 1) as nat);
            assert(2 * a * y <= 2 * a * x && d1 * y <= d1 * x && digits * x == d1 * x + x)
                by (nonlinear_arith)
                requires
                    0 <= y <= x,
                    a >= 0,
                    d1 >= 0,
                    digits == d1 + 1,
            ;
        }
    }
}

/// At a rate that is not negative, the growth over a span lies between the
/// growth over its whole years and that growth compounded for one year more,
/// thirty raw units of the base allowed for rounding: the bracket in which
/// `(1 + rate)` raised to the span in years lies too.
pub proof fn lemma_growth_is_bracketed(rate: Fixed, seconds: nat)
    requires
        rate.raw >= 0,
        growth_factor(rate, seconds) is Ok,
    ensures
        ({
            let base = Fixed { raw: (SCALE + rate.raw) as i128 };
            let whole = whole_power(
                Fixed { raw: SCALE },
                base,
                seconds / (SECONDS_PER_YEAR as nat),
            );
            let growth = growth_factor(rate, seconds).unwrap();
            &&& whole is Ok
            &&& SCALE <= whole.unwrap().raw <= growth.raw
            &&& 2 * growth.raw * SCALE <= 2 * whole.unwrap().raw * base.raw + FRACTION_DIGITS
                * base.raw
        }),
{
    let base = sum_of(Fixed { raw: SCALE }, rate).unwrap();
    let years = seconds / (SECONDS_PER_YEAR as nat);
    lemma_whole_power_grows(Fixed { raw: SCALE }, base, years);
    let whole = whole_power(Fixed { raw: SCALE }, base, years).unwrap();
    lemma_fraction_power_is_bracketed(
        whole,
        base,
        seconds % (SECONDS_PER_YEAR as nat),
        FRACTION_DIGITS as nat,
    );
}

/// At a rate between minus one and zero, multiplying by the base never
/// makes more, and never less than nothing.
pub proof fn lemma_whole_power_shrinks(acc: Fixed, base: Fixed, n: nat)
    requires
        acc.raw >= 0,
        0 <= base.raw <= SCALE,
    ensures
        whole_power(acc, base, n) is Ok,
        0 <= whole_power(acc, base, n).unwrap().raw <= acc.raw,
    decreases n,
{
    if n > 0 {
        lemma_product_with_one_or_less(acc, base);
        lemma_whole_power_shrinks(product_of(acc, base).unwrap(), base, (n - 1) as nat);
    }
}

/// At a rate between minus one and zero, the growth over part of a year lies
/// between the growth over the whole year and no growth: what
/// `fraction_power` gives is at most `acc`, and at least `acc` times `root`
/// less two and a half raw units for each digit.
pub proof fn lemma_fraction_power_is_bracketed_below_one(
    acc: Fixed,
    root: Fixed,
    numerator: nat,
    digits: nat,
)
    requires
        0 <= acc.raw <= SCALE,
        0 <= root.raw <= SCALE,
    ensures
        fraction_power(acc, root, numerator, digits) is Ok,
        0 <= fraction_power(acc, root, numerator, digits).unwrap().raw <= acc.raw,
        2 * fraction_power(acc, root, numerator, digits).unwrap().raw * SCALE >= 2 * acc.raw
            * root.raw - digits * (5 * SCALE),
    decreases digits,
{
    let s: int = 1_000_000_000_000_000_000;
    let a: int = acc.raw as int;
    let x: int = root.raw as int;
    if digits == 0 || numerator == 0 {
        assert(2 * a * s >= 2 * a * x - digits * (5 * s)) by (nonlinear_arith)
            requires
                a >= 0,
                0 <= x <= s,
                digits >= 0,
        ;
    } else {
        lemma_root_of_one_or_less(root);
        let r = root_of(root).unwrap();
        let y: int = r.raw as int;
        let d1: int = digits - 1;
        if 2 * numerator >= SECONDS_PER_YEAR {
            lemma_product_with_one_or_less(acc, r);
            let next = product_of(acc, r).unwrap();
            let b: int = next.raw as int;
            lemma_fraction_power_is_bracketed_below_one(
                next,
                r,
                (2 * numerator - SECONDS_PER_YEAR) as nat,
                (digits - 1) as nat,
            );
            let g: int = fraction_power(acc, root, numerator, digits).unwrap().raw as int;
            let by: int = b * y;
            let yy: int = y * y;
            let ax: int = a * x;
            let ay: int = a * y;
            assert(2 * by * s >= 2 * (a * yy) - s * y) by (nonlinear_arith)
                requires
                    2 * b * s >= 2 * a * y - s,
                    by == b * y,
                    yy == y * y,
                    y >= 0,
            ;
            assert(yy >= x * s - 2 * y) by (nonlinear_arith)
                requires
                    (y + 1) * (y + 1) > x * s,
                    yy == y * y,
            ;
            assert(a * yy >= ax * s - 2 * ay) by (nonlinear_arith)
                requires
                    yy >= x * s - 2 * y,
                    a >= 0,
                    ax == a * x,
                    ay == a * y,
            ;
            assert(ay <= s * s) by (nonlinear_arith)
                requires
                    ay == a * y,
                    0 <= a <= s,
                    0 <= y <= s,
            ;
            assert(s * y <= s * s) by (nonlinear_arith)
                requires
                    0 <= y <= s,
                    s > 0,
            ;
            assert(2 * by * s >= 2 * ax * s - 5 * (s * s));
            assert(2 * by >= 2 * ax - 5 * s) by (nonlinear_arith)
                requires
                    2 * by * s >= 2 * ax * s - 5 * (s * s),
                    s > 0,
            ;
            assert(2 * b * y == 2 * by && 2 * a * x == 2 * ax && digits * (5 * s) == d1 * (5 * s)
                + 5 * s) by (nonlinear_arith)
                requires
                    by == b * y,
                    ax == a * x,
                    digits == d1 + 1,
            ;
        } else {
            lemma_fraction_power_is_bracketed_below_one(
                acc,
                r,
                2 * numerator,
                (digits - 1) as nat,
            );
            assert(2 * a * y >= 2 * a * x && digits * (5 * s) == d1 * (5 * s) + 5 * s)
                by (nonlinear_arith)
                requires
                    0 <= x <= y,
                    a >= 0,
                    digits == d1 + 1,
            ;
        }
    }
}

/// At a rate between minus one and zero, the growth over a span lies between
/// that over its whole years compounded for one year more, a hundred and
/// fifty raw units allowed for rounding, and that over its whole years: the
/// bracket in which `(1 + rate)` raised to the span in years lies too.
pub proof fn lemma_shrinkage_is_bracketed(rate: Fixed, seconds: nat)
    requires
        -SCALE <= rate.raw <= 0,
    ensures
        ({
            let base = Fixed { raw: (SCALE + rate.raw) as i128 };
            let whole = whole_power(
                Fixed { raw: SCALE },
                base,
                seconds / (SECONDS_PER_YEAR as nat),
            );
            let growth = growth_factor(rate, seconds);
            &&& whole is Ok
            &&& growth is Ok
            &&& 0 <= growth.unwrap().raw <= whole.unwrap().raw <= SCALE
            &&& 2 * growth.unwrap().raw * SCALE >= 2 * whole.unwrap().raw * base.raw
                - FRACTION_DIGITS * (5 * SCALE)
        }),
{
    let base = sum_of(Fixed { raw: SCALE }, rate).unwrap();
    let years = seconds / (SECONDS_PER_YEAR as nat);
    lemma_whole_power_shrinks(Fixed { raw: SCALE }, base, years);
    let whole = whole_power(Fixed { raw: SCALE }, base, years).unwrap();
    lemma_fraction_power_is_bracketed_below_one(
        whole,
        base,
        seconds % (SECONDS_PER_YEAR as nat),
        FRACTION_DIGITS as nat,
    );
}

} // verus!
