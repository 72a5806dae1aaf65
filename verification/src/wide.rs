use vstd::prelude::*;
use vstd::arithmetic::div_mod::lemma_fundamental_div_mod_converse;

verus! {

/// A natural number of up to 256 bits, as two halves of 128 bits.
pub(crate) struct Wide {
    pub hi: u128,
    pub lo: u128,
}

/// Two to the power 128.
pub(crate) open spec fn two_to_128() -> int {
    0x1_0000_0000_0000_0000_0000_0000_0000_0000int
}

impl Wide {
    /// The number that the two halves stand for.
    pub(crate) open spec fn value(self) -> int {
        self.hi * two_to_128() + self.lo
    }
}

/// The exact product of two numbers of 128 bits.
pub(crate) fn wide_mul(a: u128, b: u128) -> (w: Wide)
    ensures
        w.value() == a * b,
{
    let a0: u128 = a % 0x1_0000_0000_0000_0000;
    let a1: u128 = a / 0x1_0000_0000_0000_0000;
    let b0: u128 = b % 0x1_0000_0000_0000_0000;
    let b1: u128 = b / 0x1_0000_0000_0000_0000;
    assert(a0 * b0 <= 0xffff_ffff_ffff_ffff * 0xffff_ffff_ffff_ffff && a0 * b1
        <= 0xffff_ffff_ffff_ffff * 0xffff_ffff_ffff_ffff && a1 * b0 <= 0xffff_ffff_ffff_ffff
        * 0xffff_ffff_ffff_ffff && a1 * b1 <= 0xffff_ffff_ffff_ffff * 0xffff_ffff_ffff_ffff)
        by (nonlinear_arith)
        requires
            a0 <= 0xffff_ffff_ffff_ffff,
            a1 <= 0xffff_ffff_ffff_ffff,
            b0 <= 0xffff_ffff_ffff_ffff,
            b1 <= 0xffff_ffff_ffff_ffff,
    ;
    assert(0xffff_ffff_ffff_ffffint * 0xffff_ffff_ffff_ffffint
        == 0xffff_ffff_ffff_fffe_0000_0000_0000_0001int);
    let p00: u128 = a0 * b0;
    let p01: u128 = a0 * b1;
    let p10: u128 = a1 * b0;
    let p11: u128 = a1 * b1;
    let t: u128 = p00 / 0x1_0000_0000_0000_0000 + p01 % 0x1_0000_0000_0000_0000 + p10
        % 0x1_0000_0000_0000_0000;
    let lo: u128 = p00 % 0x1_0000_0000_0000_0000 + (t % 0x1_0000_0000_0000_0000)
        * 0x1_0000_0000_0000_0000;
    let ghost top: int = p11 + p01 / 0x1_0000_0000_0000_0000 + p10 / 0x1_0000_0000_0000_0000 + t
        / 0x1_0000_0000_0000_0000;
    proof {
        let l: int = 0x1_0000_0000_0000_0000;
        assert(l * l == two_to_128());
        assert(a * b == p11 * (l * l) + (p01 + p10) * l + p00) by (nonlinear_arith)
            requires
                a == a1 * l + a0,
                b == b1 * l + b0,
                p00 == a0 * b0,
                p01 == a0 * b1,
                p10 == a1 * b0,
                p11 == a1 * b1,
        ;
        assert(a * b < two_to_128() * two_to_128()) by (nonlinear_arith)
            requires
                0 <= a < two_to_128(),
                0 <= b < two_to_128(),
        ;
        assert(top * two_to_128() + lo == a * b);
        assert(top < two_to_128()) by (nonlinear_arith)
            requires
                top * two_to_128() + lo == a * b,
                a * b < two_to_128() * two_to_128(),
                lo >= 0,
                two_to_128() > 0,
        ;
    }
    let hi: u128 = p11 + p01 / 0x1_0000_0000_0000_0000 + p10 / 0x1_0000_0000_0000_0000 + t
        / 0x1_0000_0000_0000_0000;
    Wide { hi, lo }
}

/// Whether one wide number is at most another.
pub(crate) fn wide_le(a: &Wide, b: &Wide) -> (r: bool)
    ensures
        r == (a.value() <= b.value()),
{
    a.hi < b.hi || (a.hi == b.hi && a.lo <= b.lo)
}

/// Quotient and remainder of a wide number by `d`, where the quotient fits
/// 128 bits.
pub(crate) fn wide_div(w: Wide, d: u128) -> (r: Option<(u128, u128)>)
    requires
        0 < d <= 0x8000_0000_0000_0000_0000_0000_0000_0000,
    ensures
        match r {
            Some((q, rem)) => q == w.value() / (d as int) && rem == w.value() % (d as int),
            None => w.value() / (d as int) > u128::MAX,
        },
    decreases w.hi,
{
    if w.hi == 0 {
        let q: u128 = w.lo / d;
        let rem: u128 = w.lo % d;
        return Some((q, rem));
    }
    let bit: u128 = w.lo % 2;
    let half: Wide = Wide {
        hi: w.hi / 2,
        lo: w.lo / 2 + (w.hi % 2) * 0x8000_0000_0000_0000_0000_0000_0000_0000,
    };
    assert(w.value() == 2 * half.value() + bit);
    match wide_div(half, d) {
        None => {
            proof {
                let x: int = half.value();
                let v: int = w.value();
                let dd: int = d as int;
                assert(v / dd >= x / dd) by (nonlinear_arith)
                    requires
                        v >= x,
                        x >= 0,
                        dd > 0,
                ;
            }
            None
        },
        Some((q1, r1)) => {
            let r2: u128 = 2 * r1 + bit;
            let carry: u128 = if r2 >= d {
                1
            } else {
                0
            };
            let rem: u128 = if r2 >= d {
                r2 - d
            } else {
                r2
            };
            proof {
                let x: int = half.value();
                let v: int = w.value();
                let dd: int = d as int;
                assert(x == q1 * dd + r1) by (nonlinear_arith)
                    requires
                        q1 == x / dd,
                        r1 == x % dd,
                        dd > 0,
                ;
                assert(v == (2 * q1 + carry) * dd + rem) by (nonlinear_arith)
                    requires
                        v == 2 * x + bit,
                        x == q1 * dd + r1,
                        rem + carry * dd == 2 * r1 + bit,
                ;
                lemma_fundamental_div_mod_converse(v, dd, 2 * q1 + carry, rem as int);
            }
            if q1 > 0x7fff_ffff_ffff_ffff_ffff_ffff_ffff_ffff {
                None
            } else {
                Some((2 * q1 + carry, rem))
            }
        },
    }
}

} // verus!
