use vstd::prelude::*;
use vstd::arithmetic::div_mod::lemma_fundamental_div_mod;
use crate::error::PricingError;
use crate::wide::{wide_div, wide_le, wide_mul, Wide};

verus! {

/// Number of raw units in one whole: a `Fixed` carries eighteen decimal
/// places.
pub const SCALE: i128 = 1_000_000_000_000_000_000;

/// A signed decimal number with eighteen fractional digits, held as its count
/// of raw units of `1 / SCALE`. It reaches a little beyond 1.7e20 either side
/// of zero.
#[derive(Clone, Copy, Debug, PartialEq, Eq, Structural)]
pub struct Fixed {
    pub raw: i128,
}

/// The magnitude of an integer.
pub open spec fn magnitude(n: int) -> int {
    if n < 0 {
        -n
    } else {
        n
    }
}

/// The quotient of `n` by `d` rounded toward zero (zero where `d` is zero).
pub open spec fn trunc_div(n: int, d: int) -> int {
    if d == 0 {
        0
    } else if (n < 0) == (d < 0) {
        magnitude(n) / magnitude(d)
    } else {
        -(magnitude(n) / magnitude(d))
    }
}

/// The quotient of `n` by `d`, both taken as magnitudes, rounded to the
/// nearest integer, a half upward.
pub open spec fn nearest_magnitude(n: int, d: int) -> int {
    if 2 * (n % d) >= d {
        n / d + 1
    } else {
        n / d
    }
}

/// The quotient of `n` by `d` rounded to the nearest integer, a half away
/// from zero (zero where `d` is zero).
pub open spec fn nearest_div(n: int, d: int) -> int {
    if d == 0 {
        0
    } else if (n < 0) == (d < 0) {
        nearest_magnitude(magnitude(n), magnitude(d))
    } else {
        -nearest_magnitude(magnitude(n), magnitude(d))
    }
}

/// Raw product of two raw values: the exact product rounded to nearest.
pub open spec fn mul_raw(a: int, b: int) -> int {
    nearest_div(a * b, SCALE as int)
}

/// Raw quotient of two raw values: the exact quotient rounded to nearest.
pub open spec fn div_raw(a: int, b: int) -> int {
    nearest_div(a * SCALE, b)
}

/// `r` is the largest integer whose square does not exceed `n`.
pub open spec fn is_floor_sqrt(n: int, r: int) -> bool {
    0 <= r && r * r <= n && n < (r + 1) * (r + 1)
}

/// The largest integer whose square does not exceed `n`.
pub open spec fn floor_sqrt(n: int) -> int {
    choose|r: int| is_floor_sqrt(n, r)
}

/// Raw square root of a non-negative raw value, rounded down.
pub open spec fn sqrt_raw(a: int) -> int {
    floor_sqrt(a * SCALE)
}

/// Whether a raw value fits a `Fixed`.
pub open spec fn in_range(v: int) -> bool {
    i128::MIN <= v <= i128::MAX
}

/// The `Fixed` of raw value `v`, or `Overflow` where `v` does not fit.
pub open spec fn checked(v: int) -> Result<Fixed, PricingError> {
    if in_range(v) {
        Ok(Fixed { raw: v as i128 })
    } else {
        Err(PricingError::Overflow)
    }
}

/// Sum of two numbers, where it fits.
pub open spec fn sum_of(a: Fixed, b: Fixed) -> Result<Fixed, PricingError> {
    checked(a.raw + b.raw)
}

/// Difference of two numbers, where it fits.
pub open spec fn difference_of(a: Fixed, b: Fixed) -> Result<Fixed, PricingError> {
    checked(a.raw - b.raw)
}

/// Product of two numbers rounded to nearest, where it fits.
pub open spec fn product_of(a: Fixed, b: Fixed) -> Result<Fixed, PricingError> {
    checked(mul_raw(a.raw as int, b.raw as int))
}

/// Quotient of two numbers rounded to nearest: `DivisionByZero` for a zero
/// divisor, else the quotient where it fits.
pub open spec fn quotient_of(a: Fixed, b: Fixed) -> Result<Fixed, PricingError> {
    if b.raw == 0 {
        Err(PricingError::DivisionByZero)
    } else {
        checked(div_raw(a.raw as int, b.raw as int))
    }
}

/// Quotient of a number by a whole count, rounded to nearest:
/// `DivisionByZero` for a count of zero.
pub open spec fn share_of(a: Fixed, count: nat) -> Result<Fixed, PricingError> {
    if count == 0 {
        Err(PricingError::DivisionByZero)
    } else {
        checked(nearest_div(a.raw as int, count as int))
    }
}

/// Square root rounded down: `NegativeRoot` below zero.
pub open spec fn root_of(a: Fixed) -> Result<Fixed, PricingError> {
    if a.raw < 0 {
        Err(PricingError::NegativeRoot)
    } else {
        Ok(Fixed { raw: sqrt_raw(a.raw as int) as i128 })
    }
}

/// Sum of two results: the first error met, left to right, else the sum.
pub open spec fn lift_sum(
    a: Result<Fixed, PricingError>,
    b: Result<Fixed, PricingError>,
) -> Result<Fixed, PricingError> {
    match (a, b) {
        (Err(e), _) => Err(e),
        (Ok(_), Err(e)) => Err(e),
        (Ok(x), Ok(y)) => sum_of(x, y),
    }
}

/// Difference of two results: the first error met, left to right, else the
/// difference.
pub open spec fn lift_difference(
    a: Result<Fixed, PricingError>,
    b: Result<Fixed, PricingError>,
) -> Result<Fixed, PricingError> {
    match (a, b) {
        (Err(e), _) => Err(e),
        (Ok(_), Err(e)) => Err(e),
        (Ok(x), Ok(y)) => difference_of(x, y),
    }
}

/// Product of two results: the first error met, left to right, else the
/// product.
pub open spec fn lift_product(
    a: Result<Fixed, PricingError>,
    b: Result<Fixed, PricingError>,
) -> Result<Fixed, PricingError> {
    match (a, b) {
        (Err(e), _) => Err(e),
        (Ok(_), Err(e)) => Err(e),
        (Ok(x), Ok(y)) => product_of(x, y),
    }
}

/// Square root of a result: its error, else the root.
pub open spec fn lift_root(a: Result<Fixed, PricingError>) -> Result<Fixed, PricingError> {
    match a {
        Err(e) => Err(e),
        Ok(x) => root_of(x),
    }
}

/// At most one integer is the floor of the square root of `n`.
pub proof fn lemma_floor_sqrt_unique(n: int, r1: int, r2: int)
    requires
        is_floor_sqrt(n, r1),
        is_floor_sqrt(n, r2),
    ensures
        r1 == r2,
{
    if r1 < r2 {
        assert((r1 + 1) * (r1 + 1) <= r2 * r2) by (nonlinear_arith)
            requires
                0 <= r1,
                r1 + 1 <= r2,
        ;
    } else if r2 < r1 {
        assert((r2 + 1) * (r2 + 1) <= r1 * r1) by (nonlinear_arith)
            requires
                0 <= r2,
                r2 + 1 <= r1,
        ;
    }
}

/// Every natural number has a floor of its square root.
pub proof fn lemma_floor_sqrt_exists(n: nat)
    ensures
        is_floor_sqrt(n as int, floor_sqrt(n as int)),
    decreases n,
{
    if n == 0 {
        assert(is_floor_sqrt(0, 0));
    } else {
        lemma_floor_sqrt_exists((n - 1) as nat);
        let r = floor_sqrt(n - 1);
        if (r + 1) * (r + 1) == n {
            assert(is_floor_sqrt(n as int, r + 1)) by (nonlinear_arith)
                requires
                    (r + 1) * (r + 1) == n,
                    r >= 0,
            ;
        } else {
            assert(is_floor_sqrt(n as int, r));
        }
    }
}

/// The square root of a number that is one or more lies between one and the
/// number, and its square does not exceed the number.
pub proof fn lemma_root_of_one_or_more(x: Fixed)
    requires
        x.raw >= SCALE,
    ensures
        root_of(x) is Ok,
        SCALE <= root_of(x).unwrap().raw <= x.raw,
        root_of(x).unwrap().raw * root_of(x).unwrap().raw <= x.raw * SCALE,
{
    let s: int = 1_000_000_000_000_000_000;
    let xv: int = x.raw as int;
    let n: int = xv * s;
    lemma_floor_sqrt_exists(n as nat);
    let r: int = floor_sqrt(n);
    assert(s <= r && r <= xv) by (nonlinear_arith)
        requires
            r >= 0,
            r * r <= n,
            n < (r + 1) * (r + 1),
            n == xv * s,
            xv >= s,
            s > 0,
    ;
}

/// Multiplying a number that is not negative by one that is one or more does
/// not make it smaller, and rounds up by half a unit at most.
pub proof fn lemma_product_with_one_or_more(a: Fixed, r: Fixed)
    requires
        a.raw >= 0,
        r.raw >= SCALE,
        product_of(a, r) is Ok,
    ensures
        a.raw <= product_of(a, r).unwrap().raw,
        2 * product_of(a, r).unwrap().raw * SCALE <= 2 * a.raw * r.raw + SCALE,
{
    let s: int = 1_000_000_000_000_000_000;
    let av: int = a.raw as int;
    let rv: int = r.raw as int;
    let n: int = av * rv;
    assert(n >= av * s && n >= 0) by (nonlinear_arith)
        requires
            n == av * rv,
            av >= 0,
            rv >= s,
            s > 0,
    ;
    lemma_nearest_is_close(n, s);
    let m: int = nearest_magnitude(n, s);
    assert(mul_raw(av, rv) == m);
    assert(2 * m * s <= 2 * av * rv + s) by (nonlinear_arith)
        requires
            2 * (m * s - n) <= s,
            n == av * rv,
    ;
}

/// The square root of a number between zero and one lies between the number
/// and one, and falls short of the exact root by less than one raw unit.
pub proof fn lemma_root_of_one_or_less(x: Fixed)
    requires
        0 <= x.raw <= SCALE,
    ensures
        root_of(x) is Ok,
        x.raw <= root_of(x).unwrap().raw <= SCALE,
        (root_of(x).unwrap().raw + 1) * (root_of(x).unwrap().raw + 1) > x.raw * SCALE,
{
    let s: int = 1_000_000_000_000_000_000;
    let xv: int = x.raw as int;
    let n: int = xv * s;
    lemma_floor_sqrt_exists(n as nat);
    let r: int = floor_sqrt(n);
    assert(xv <= r && r <= s) by (nonlinear_arith)
        requires
            r >= 0,
            r * r <= n,
            n < (r + 1) * (r + 1),
            n == xv * s,
            0 <= xv <= s,
            s > 0,
    ;
}

/// Multiplying a number that is not negative by one between zero and one
/// does not make it larger, and rounds down by half a unit at most.
pub proof fn lemma_product_with_one_or_less(a: Fixed, r: Fixed)
    requires
        a.raw >= 0,
        0 <= r.raw <= SCALE,
    ensures
        product_of(a, r) is Ok,
        0 <= product_of(a, r).unwrap().raw <= a.raw,
        2 * product_of(a, r).unwrap().raw * SCALE >= 2 * a.raw * r.raw - SCALE,
{
    let s: int = 1_000_000_000_000_000_000;
    let av: int = a.raw as int;
    let rv: int = r.raw as int;
    let n: int = av * rv;
    assert(0 <= n <= av * s) by (nonlinear_arith)
        requires
            n == av * rv,
            av >= 0,
            0 <= rv <= s,
    ;
    lemma_nearest_is_close(n, s);
    let m: int = nearest_magnitude(n, s);
    assert(mul_raw(av, rv) == m);
    assert(2 * m * s >= 2 * av * rv - s) by (nonlinear_arith)
        requires
            2 * (n - m * s) <= s,
            n == av * rv,
    ;
}

/// A quotient rounded to nearest lies within half the divisor of the exact
/// quotient, either way.
pub proof fn lemma_nearest_is_close(n: int, d: int)
    requires
        n >= 0,
        d > 0,
    ensures
        nearest_magnitude(n, d) >= 0,
        2 * (nearest_magnitude(n, d) * d - n) <= d,
        2 * (n - nearest_magnitude(n, d) * d) <= d,
{
    lemma_fundamental_div_mod(n, d);
    let q = n / d;
    let r = n % d;
    assert(0 <= r < d && n == q * d + r && q >= 0 && (q + 1) * d == q * d + d)
        by (nonlinear_arith)
        requires
            n == d * q + r,
            r == n % d,
            n >= 0,
            d > 0,
    ;
}

/// Multiplying by one and dividing by one change nothing.
pub proof fn lemma_one_is_neutral(a: Fixed)
    ensures
        product_of(a, Fixed { raw: SCALE }) == Ok::<Fixed, PricingError>(a),
        quotient_of(a, Fixed { raw: SCALE }) == Ok::<Fixed, PricingError>(a),
{
    let x: int = a.raw as int;
    let s: int = 1_000_000_000_000_000_000;
    assert(magnitude(x * s) == magnitude(x) * s);
    assert((magnitude(x) * s) / s == magnitude(x));
    assert((magnitude(x) * s) % s == 0);
}

/// Dividing and then multiplying by the same number gives back the number
/// one started from, short of half a unit for the last rounding and of what
/// the first rounding is magnified to.
pub proof fn lemma_divide_then_multiply(a: Fixed, g: Fixed)
    requires
        quotient_of(a, g) is Ok,
        product_of(quotient_of(a, g).unwrap(), g) is Ok,
    ensures
        2 * SCALE * magnitude(product_of(quotient_of(a, g).unwrap(), g).unwrap().raw - a.raw)
            <= magnitude(g.raw as int) + SCALE,
{
    let s: int = 1_000_000_000_000_000_000;
    let av: int = a.raw as int;
    let gv: int = g.raw as int;
    let am: int = magnitude(av);
    let gm: int = magnitude(gv);
    let q: int = div_raw(av, gv);
    let n1: int = am * s;
    assert(magnitude(av * s) == n1);
    assert(av * s < 0 <==> av < 0);
    let qm: int = nearest_magnitude(n1, gm);
    lemma_nearest_is_close(n1, gm);
    let n2: int = qm * gm;
    assert(n2 >= 0) by (nonlinear_arith)
        requires
            n2 == qm * gm,
            qm >= 0,
            gm > 0,
    ;
    let bm: int = nearest_magnitude(n2, s);
    lemma_nearest_is_close(n2, s);
    let p: int = q * gv;
    assert(2 * s * magnitude(bm - am) <= gm + s) by (nonlinear_arith)
        requires
            2 * (qm * gm - am * s) <= gm,
            2 * (am * s - qm * gm) <= gm,
            2 * (bm * s - qm * gm) <= s,
            2 * (qm * gm - bm * s) <= s,
            magnitude(bm - am) == bm - am || magnitude(bm - am) == am - bm,
    ;
    if av >= 0 {
        assert(p == n2) by (nonlinear_arith)
            requires
                p == q * gv,
                n2 == qm * gm,
                (gv > 0 && q == qm && gv == gm) || (gv < 0 && q == -qm && gv == -gm),
        ;
        assert(mul_raw(q, gv) == bm);
    } else {
        assert(p == -n2) by (nonlinear_arith)
            requires
                p == q * gv,
                n2 == qm * gm,
                (gv > 0 && q == -qm && gv == gm) || (gv < 0 && q == qm && gv == -gm),
        ;
        assert(mul_raw(q, gv) == -bm);
    }
}

/// Multiplying and then dividing by the same number gives back the number
/// one started from, short of half a unit for the last rounding and of what
/// the first rounding is magnified to.
pub proof fn lemma_multiply_then_divide(a: Fixed, g: Fixed)
    requires
        product_of(a, g) is Ok,
        quotient_of(product_of(a, g).unwrap(), g) is Ok,
    ensures
        2 * magnitude(g.raw as int) * magnitude(
            quotient_of(product_of(a, g).unwrap(), g).unwrap().raw - a.raw,
        ) <= magnitude(g.raw as int) + SCALE,
{
    let s: int = 1_000_000_000_000_000_000;
    let av: int = a.raw as int;
    let gv: int = g.raw as int;
    let am: int = magnitude(av);
    let gm: int = magnitude(gv);
    let ag: int = av * gv;
    let n1: int = am * gm;
    assert(n1 >= 0 && (ag >= 0 ==> ag == n1) && (ag < 0 ==> -ag == n1) && (ag < 0 <==> (av != 0
        && ((av < 0) != (gv < 0))))) by (nonlinear_arith)
        requires
            ag == av * gv,
            n1 == am * gm,
            gv != 0,
            (av >= 0 && am == av) || (av < 0 && am == -av),
            (gv > 0 && gm == gv) || (gv < 0 && gm == -gv),
    ;
    let pm: int = nearest_magnitude(n1, s);
    lemma_nearest_is_close(n1, s);
    let p: int = mul_raw(av, gv);
    assert(magnitude(p) == pm);
    let n2: int = pm * s;
    assert(magnitude(p * s) == n2);
    let cm: int = nearest_magnitude(n2, gm);
    lemma_nearest_is_close(n2, gm);
    assert(2 * gm * magnitude(cm - am) <= gm + s) by (nonlinear_arith)
        requires
            2 * (pm * s - am * gm) <= s,
            2 * (am * gm - pm * s) <= s,
            2 * (cm * gm - pm * s) <= gm,
            2 * (pm * s - cm * gm) <= gm,
            gm > 0,
            magnitude(cm - am) == cm - am || magnitude(cm - am) == am - cm,
    ;
    let c: int = div_raw(p, gv);
    assert(p * s < 0 <==> p < 0);
    if pm == 0 {
        assert(n2 == 0);
        assert(cm == 0) by (nonlinear_arith)
            requires
                2 * (cm * gm - 0) <= gm,
                cm >= 0,
                gm > 0,
        ;
        assert(c == 0);
    } else if av > 0 {
        assert(c == cm);
    } else {
        assert(av < 0) by {
            if av == 0 {
                assert(n1 == 0) by (nonlinear_arith)
                    requires
                        n1 == am * gm,
                        am == 0,
                ;
            }
        }
        assert(c == -cm);
    }
}

/// Quotient of `n` by `d`, rounded toward zero.
pub(crate) fn quotient_toward_zero(n: i128, d: i128) -> (q: i128)
    requires
        d != 0,
        n > i128::MIN,
        d > i128::MIN,
    ensures
        q == trunc_div(n as int, d as int),
        magnitude(q as int) <= magnitude(n as int),
{
    let n_abs: u128 = if n < 0 {
        (-n) as u128
    } else {
        n as u128
    };
    let d_abs: u128 = if d < 0 {
        (-d) as u128
    } else {
        d as u128
    };
    let q_abs: u128 = n_abs / d_abs;
    proof {
        assert(q_abs <= n_abs) by (nonlinear_arith)
            requires
                q_abs == n_abs / d_abs,
                d_abs >= 1,
        ;
    }
    if (n < 0) == (d < 0) {
        q_abs as i128
    } else {
        -(q_abs as i128)
    }
}

/// The magnitude of a number.
fn magnitude_of(x: i128) -> (m: u128)
    ensures
        m == magnitude(x as int),
        m <= 0x8000_0000_0000_0000_0000_0000_0000_0000,
{
    if x == i128::MIN {
        0x8000_0000_0000_0000_0000_0000_0000_0000
    } else if x < 0 {
        (-x) as u128
    } else {
        x as u128
    }
}

/// The number of magnitude `m`, below zero where `negative`, where it fits.
fn signed(m: u128, negative: bool) -> (r: Result<Fixed, PricingError>)
    ensures
        r == checked(if negative { -(m as int) } else { m as int }),
{
    if negative {
        if m > 0x8000_0000_0000_0000_0000_0000_0000_0000 {
            Err(PricingError::Overflow)
        } else if m == 0x8000_0000_0000_0000_0000_0000_0000_0000 {
            Ok(Fixed { raw: i128::MIN })
        } else {
            Ok(Fixed { raw: -(m as i128) })
        }
    } else {
        if m > 0x7fff_ffff_ffff_ffff_ffff_ffff_ffff_ffff {
            Err(PricingError::Overflow)
        } else {
            Ok(Fixed { raw: m as i128 })
        }
    }
}

/// The product of `a` and `b` divided by `d`, rounded to nearest, where it
/// fits.
fn scaled(a: i128, b: i128, d: i128) -> (r: Result<Fixed, PricingError>)
    requires
        d != 0,
    ensures
        r == checked(nearest_div(a * b, d as int)),
{
    let am: u128 = magnitude_of(a);
    let bm: u128 = magnitude_of(b);
    let dm: u128 = magnitude_of(d);
    let product_negative: bool = a != 0 && b != 0 && ((a < 0) != (b < 0));
    let negative: bool = product_negative != (d < 0);
    let ghost n: int = a * b;
    proof {
        assert(am * bm >= 0 && (n >= 0 ==> n == am * bm) && (n < 0 ==> -n == am * bm) && (n < 0
            <==> product_negative)) by (nonlinear_arith)
            requires
                n == a * b,
                (a >= 0 && am == a) || (a < 0 && am == -a),
                (b >= 0 && bm == b) || (b < 0 && bm == -b),
                product_negative == (a != 0 && b != 0 && ((a < 0) != (b < 0))),
        ;
    }
    let w: Wide = wide_mul(am, bm);
    match wide_div(w, dm) {
        None => Err(PricingError::Overflow),
        Some((q, rem)) => {
            if 2 * rem >= dm {
                if q == u128::MAX {
                    Err(PricingError::Overflow)
                } else {
                    signed(q + 1, negative)
                }
            } else {
                signed(q, negative)
            }
        },
    }
}

/// The largest integer whose square does not exceed `a * SCALE`.
fn scaled_sqrt(a: u128) -> (r: u128)
    requires
        a <= 0x8000_0000_0000_0000_0000_0000_0000_0000,
    ensures
        is_floor_sqrt(a * SCALE, r as int),
        r == floor_sqrt(a * SCALE),
        r < 0x4000_0000_0000_0000_0000_0000,
{
    let target: Wide = wide_mul(a, 1_000_000_000_000_000_000);
    let ghost n: int = a * 1_000_000_000_000_000_000;
    let mut lo: u128 = 0;
    let mut hi: u128 = 0x4000_0000_0000_0000_0000_0000;
    assert(n < 0x4000_0000_0000_0000_0000_0000int * 0x4000_0000_0000_0000_0000_0000int) by {
        assert(0x4000_0000_0000_0000_0000_0000int * 0x4000_0000_0000_0000_0000_0000int
            == 0x1000_0000_0000_0000_0000_0000_0000_0000_0000_0000_0000_0000int);
    }
    while hi - lo > 1
        invariant
            lo < hi <= 0x4000_0000_0000_0000_0000_0000,
            lo * lo <= n,
            n < hi * hi,
            target.value() == n,
        decreases hi - lo,
    {
        let mid: u128 = lo + (hi - lo) / 2;
        let square: Wide = wide_mul(mid, mid);
        if wide_le(&square, &target) {
            lo = mid;
        } else {
            hi = mid;
        }
    }
    proof {
        assert(hi == lo + 1);
        assert(is_floor_sqrt(n, lo as int));
        lemma_floor_sqrt_unique(n, lo as int, floor_sqrt(n));
    }
    lo
}

impl Fixed {
    /// Zero.
    pub fn zero() -> (r: Fixed)
        ensures
            r.raw == 0,
    {
        Fixed { raw: 0 }
    }

    /// One.
    pub fn one() -> (r: Fixed)
        ensures
            r.raw == SCALE,
    {
        Fixed { raw: SCALE }
    }

    /// The number with the given count of raw units.
    pub fn from_raw(raw: i128) -> (r: Fixed)
        ensures
            r.raw == raw,
    {
        Fixed { raw }
    }

    /// The whole number `units`.
    pub fn from_int(units: i64) -> (r: Fixed)
        ensures
            r.raw == units * SCALE,
    {
        let a: i128 = units as i128;
        let unit: i128 = SCALE;
        assert(-0x1000_0000_0000_0000_0000_0000_0000_0000 <= a * unit
            <= 0x1000_0000_0000_0000_0000_0000_0000_0000) by (nonlinear_arith)
            requires
                -0x8000_0000_0000_0000 <= a <= 0x8000_0000_0000_0000,
                unit == 1_000_000_000_000_000_000,
        ;
        Fixed { raw: a * unit }
    }

    /// Sum, where it fits.
    pub fn add(self, other: Fixed) -> (r: Result<Fixed, PricingError>)
        ensures
            r == sum_of(self, other),
    {
        match self.raw.checked_add(other.raw) {
            Some(raw) => Ok(Fixed { raw }),
            None => Err(PricingError::Overflow),
        }
    }

    /// Difference, where it fits.
    pub fn sub(self, other: Fixed) -> (r: Result<Fixed, PricingError>)
        ensures
            r == difference_of(self, other),
    {
        match self.raw.checked_sub(other.raw) {
            Some(raw) => Ok(Fixed { raw }),
            None => Err(PricingError::Overflow),
        }
    }

    /// Product rounded to nearest, where it fits.
    pub fn mul(self, other: Fixed) -> (r: Result<Fixed, PricingError>)
        ensures
            r == product_of(self, other),
    {
        scaled(self.raw, other.raw, SCALE)
    }

    /// Quotient rounded to nearest: `DivisionByZero` for a zero divisor, else
    /// the quotient where it fits.
    pub fn div(self, other: Fixed) -> (r: Result<Fixed, PricingError>)
        ensures
            r == quotient_of(self, other),
    {
        if other.raw == 0 {
            return Err(PricingError::DivisionByZero);
        }
        scaled(self.raw, SCALE, other.raw)
    }

    /// Quotient by a whole count, rounded to nearest: `DivisionByZero` for a
    /// count of zero.
    pub fn div_count(self, count: usize) -> (r: Result<Fixed, PricingError>)
        ensures
            r == share_of(self, count as nat),
    {
        if count == 0 {
            return Err(PricingError::DivisionByZero);
        }
        scaled(self.raw, 1, count as i128)
    }

    /// Square root rounded down: `NegativeRoot` below zero.
    pub fn sqrt(self) -> (r: Result<Fixed, PricingError>)
        ensures
            r == root_of(self),
    {
        if self.raw < 0 {
            return Err(PricingError::NegativeRoot);
        }
        let root: u128 = scaled_sqrt(self.raw as u128);
        Ok(Fixed { raw: root as i128 })
    }
}

} // verus!
