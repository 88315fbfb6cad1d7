//! Fixed-point complex numbers.
//!
//! A `Complex` stores real and imaginary parts as `i64` values scaled by
//! `SCALE`: the mathematical value `1.0` is `SCALE`. Multiplication computes
//! the exact integer products and rescales with a flooring division by
//! `SCALE`, so every executable operation matches its spec-level model
//! (`cmul_model`, `cadd_model`) exactly.

use vstd::prelude::*;
use vstd::arithmetic::div_mod::{
    lemma_fundamental_div_mod, lemma_fundamental_div_mod_converse, lemma_div_is_ordered,
};

verus! {

/// The fixed-point unit: 2^24. A complex amplitude of modulus 1 has
/// components in [-SCALE, SCALE].
pub const SCALE: i64 = 16777216;

/// Mathematical (spec-level) complex number: unbounded integer parts,
/// still in the fixed-point scale.
pub ghost struct CNum {
    pub re: int,
    pub im: int,
}

/// Flooring division by `SCALE`: the rescaling step after a fixed-point
/// multiplication.
pub open spec fn sdiv(x: int) -> int {
    x / (SCALE as int)
}

/// Spec-level complex addition.
pub open spec fn cadd_model(a: CNum, b: CNum) -> CNum {
    CNum { re: a.re + b.re, im: a.im + b.im }
}

/// Spec-level complex multiplication in fixed point: exact products,
/// then a flooring rescale of each component.
pub open spec fn cmul_model(a: CNum, b: CNum) -> CNum {
    CNum { re: sdiv(a.re * b.re - a.im * b.im), im: sdiv(a.re * b.im + a.im * b.re) }
}

pub open spec fn czero() -> CNum {
    CNum { re: 0, im: 0 }
}

pub open spec fn cone() -> CNum {
    CNum { re: SCALE as int, im: 0 }
}

/// An executable fixed-point complex number.
#[derive(Clone, Copy, Debug, PartialEq, Eq, Structural)]
pub struct Complex {
    pub re: i64,
    pub im: i64,
}

impl View for Complex {
    type V = CNum;

    open spec fn view(&self) -> CNum {
        CNum { re: self.re as int, im: self.im as int }
    }
}

/// Both components within `[-bound, bound]`.
pub open spec fn c_bounded(a: CNum, bound: int) -> bool {
    -bound <= a.re <= bound && -bound <= a.im <= bound
}

impl Complex {
    pub fn new(re: i64, im: i64) -> (r: Complex)
        ensures
            r.re == re,
            r.im == im,
    {
        Complex { re, im }
    }

    pub fn zero() -> (r: Complex)
        ensures
            r@ == czero(),
    {
        Complex { re: 0, im: 0 }
    }

    pub fn one() -> (r: Complex)
        ensures
            r@ == cone(),
    {
        Complex { re: SCALE, im: 0 }
    }
}

/// `sdiv` stays within `[-k, k]` when its argument is within `[-k*SCALE, k*SCALE]`.
pub proof fn lemma_sdiv_bound(x: int, k: int)
    requires
        0 <= k,
        -k * (SCALE as int) <= x <= k * (SCALE as int),
    ensures
        -k <= sdiv(x) <= k,
{
    let s: int = SCALE as int;
    lemma_div_is_ordered(-k * s, x, s);
    lemma_div_is_ordered(x, k * s, s);
    assert((-k * s) / s == -k && (k * s) / s == k) by {
        lemma_fundamental_div_mod_converse(-k * s, s, -k, 0);
        lemma_fundamental_div_mod_converse(k * s, s, k, 0);
    }
}

/// Rescaling an exact multiple of `SCALE` recovers the factor: the fixed-point
/// product with `1.0` or `-1.0` is exact.
pub proof fn lemma_sdiv_exact(q: int)
    ensures
        sdiv(q * (SCALE as int)) == q,
{
    lemma_fundamental_div_mod_converse(q * (SCALE as int), SCALE as int, q, 0);
}

/// Flooring division by `SCALE`, for both signs of the argument.
fn scale_div(x: i64) -> (r: i64)
    requires
        -0x4000_0000_0000_0000 <= x <= 0x4000_0000_0000_0000,
    ensures
        r as int == sdiv(x as int),
        -0x40_0000_0000 <= r <= 0x40_0000_0000,
{
    proof {
        lemma_sdiv_bound(x as int, 0x40_0000_0000);
        assert(0x40_0000_0000 * (SCALE as int) == 0x4000_0000_0000_0000) by (nonlinear_arith)
            requires
                SCALE == 16777216,
        ;
    }
    if x >= 0 {
        let q: u64 = (x as u64) / (SCALE as u64);
        proof {
            assert(q == sdiv(x as int));
        }
        q as i64
    } else {
        let y: u64 = (-x) as u64;
        let q: u64 = y / (SCALE as u64);
        let rem: u64 = y % (SCALE as u64);
        if rem == 0 {
            proof {
                lemma_fundamental_div_mod(y as int, SCALE as int);
                lemma_fundamental_div_mod_converse(
                    x as int,
                    SCALE as int,
                    -(q as int),
                    0,
                );
            }
            -(q as i64)
        } else {
            proof {
                lemma_fundamental_div_mod(y as int, SCALE as int);
                lemma_fundamental_div_mod_converse(
                    x as int,
                    SCALE as int,
                    -(q as int) - 1,
                    (SCALE as int) - (rem as int),
                );
            }
            -(q as i64) - 1
        }
    }
}

/// Executable complex addition; exact.
pub fn cadd(a: Complex, b: Complex) -> (r: Complex)
    requires
        c_bounded(a@, 0x1000_0000_0000),
        c_bounded(b@, 0x1000_0000_0000),
    ensures
        r@ == cadd_model(a@, b@),
{
    Complex { re: a.re + b.re, im: a.im + b.im }
}

/// Executable fixed-point complex multiplication; matches `cmul_model`
/// exactly (exact products, flooring rescale).
pub fn cmul(a: Complex, b: Complex) -> (r: Complex)
    requires
        c_bounded(a@, SCALE as int),
        c_bounded(b@, 0x1_0000_0000),
    ensures
        r@ == cmul_model(a@, b@),
        c_bounded(r@, 0x40_0000_0000),
{
    proof {
        assert(-0x100_0000_0000_0000 <= a@.re * b@.re <= 0x100_0000_0000_0000
            && -0x100_0000_0000_0000 <= a@.im * b@.im <= 0x100_0000_0000_0000
            && -0x100_0000_0000_0000 <= a@.re * b@.im <= 0x100_0000_0000_0000
            && -0x100_0000_0000_0000 <= a@.im * b@.re <= 0x100_0000_0000_0000) by (nonlinear_arith)
            requires
                c_bounded(a@, SCALE as int),
                c_bounded(b@, 0x1_0000_0000),
                SCALE == 16777216,
        ;
        assert(-0x4000_0000_0000_0000 <= a@.re * b@.re - a@.im * b@.im
            <= 0x4000_0000_0000_0000) by (nonlinear_arith)
            requires
                c_bounded(a@, SCALE as int),
                c_bounded(b@, 0x1_0000_0000),
                SCALE == 16777216,
        ;
        assert(-0x4000_0000_0000_0000 <= a@.re * b@.im + a@.im * b@.re
            <= 0x4000_0000_0000_0000) by (nonlinear_arith)
            requires
                c_bounded(a@, SCALE as int),
                c_bounded(b@, 0x1_0000_0000),
                SCALE == 16777216,
        ;
    }
    let re: i64 = scale_div(a.re * b.re - a.im * b.im);
    let im: i64 = scale_div(a.re * b.im + a.im * b.re);
    Complex { re, im }
}

} // verus!
