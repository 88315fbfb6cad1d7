//! Single-qubit gate application.
//!
//! A gate is a 2x2 complex matrix in fixed point. Applying it to qubit `q`
//! of an `n`-qubit register pairs every basis index having bit `b = n-1-q`
//! clear (qubit 0 is the most significant bit of the rendered bitstring)
//! with its partner at distance `stride = 2^b`, and replaces each pair by
//! its image under the matrix.

use vstd::prelude::*;
use vstd::arithmetic::div_mod::{
    lemma_fundamental_div_mod, lemma_fundamental_div_mod_converse,
};
use crate::complex::{
    CNum, Complex, SCALE, c_bounded, cadd, cadd_model, cmul, cmul_model, cone, czero,
    lemma_sdiv_bound,
};

verus! {

/// Spec-level 2x2 complex matrix.
pub ghost struct GateModel {
    pub m00: CNum,
    pub m01: CNum,
    pub m10: CNum,
    pub m11: CNum,
}

/// An executable 2x2 complex matrix in fixed point. Entry `gRC` is row `R`,
/// column `C`.
#[derive(Clone, Copy, Debug, PartialEq, Eq, Structural)]
pub struct Gate {
    pub g00: Complex,
    pub g01: Complex,
    pub g10: Complex,
    pub g11: Complex,
}

impl View for Gate {
    type V = GateModel;

    open spec fn view(&self) -> GateModel {
        GateModel { m00: self.g00@, m01: self.g01@, m10: self.g10@, m11: self.g11@ }
    }
}

pub open spec fn identity_model() -> GateModel {
    GateModel { m00: cone(), m01: czero(), m10: czero(), m11: cone() }
}

pub open spec fn pauli_x_model() -> GateModel {
    GateModel { m00: czero(), m01: cone(), m10: cone(), m11: czero() }
}

impl Gate {
    /// Every entry of a unitary matrix has modulus at most 1, so its
    /// fixed-point components fit in `[-SCALE, SCALE]`.
    pub open spec fn wf(&self) -> bool {
        &&& c_bounded(self.g00@, SCALE as int)
        &&& c_bounded(self.g01@, SCALE as int)
        &&& c_bounded(self.g10@, SCALE as int)
        &&& c_bounded(self.g11@, SCALE as int)
    }

    pub fn new(g00: Complex, g01: Complex, g10: Complex, g11: Complex) -> (r: Gate)
        ensures
            r == (Gate { g00, g01, g10, g11 }),
    {
        Gate { g00, g01, g10, g11 }
    }

    /// The identity gate.
    pub fn identity() -> (r: Gate)
        ensures
            r@ == identity_model(),
            r.wf(),
    {
        Gate {
            g00: Complex::one(),
            g01: Complex::zero(),
            g10: Complex::zero(),
            g11: Complex::one(),
        }
    }

    /// The X (NOT) gate: swaps the paired amplitudes.
    pub fn pauli_x() -> (r: Gate)
        ensures
            r@ == pauli_x_model(),
            r.wf(),
    {
        Gate {
            g00: Complex::zero(),
            g01: Complex::one(),
            g10: Complex::one(),
            g11: Complex::zero(),
        }
    }
}

/// Whether the pairing bit (of weight `stride`) is set in index `i`.
pub open spec fn pair_bit(i: int, stride: int) -> bool {
    (i / stride) % 2 == 1
}

/// First row of the matrix applied to the amplitude pair `(a0, a1)`.
pub open spec fn row0(g: GateModel, a0: CNum, a1: CNum) -> CNum {
    cadd_model(cmul_model(g.m00, a0), cmul_model(g.m01, a1))
}

/// Second row of the matrix applied to the amplitude pair `(a0, a1)`.
pub open spec fn row1(g: GateModel, a0: CNum, a1: CNum) -> CNum {
    cadd_model(cmul_model(g.m10, a0), cmul_model(g.m11, a1))
}

/// The amplitude sequence after applying gate `g` with pairing stride
/// `stride`: each index with the pairing bit clear holds the first row of
/// the transformed pair, its partner the second row.
pub open spec fn transformed(g: GateModel, s: Seq<CNum>, stride: int) -> Seq<CNum> {
    Seq::new(
        s.len(),
        |i: int|
            if !pair_bit(i, stride) {
                row0(g, s[i], s[i + stride])
            } else {
                row1(g, s[i - stride], s[i])
            },
    )
}

/// An index with the pairing bit clear has its partner `stride` above it,
/// still inside the vector; the partner has the bit set.
pub proof fn lemma_pair_up(i: int, stride: int, len: int)
    requires
        stride >= 1,
        len as int % (2 * stride as int) == 0,
        0 <= i < len,
        !pair_bit(i, stride),
    ensures
        i + stride < len,
        pair_bit(i + stride, stride),
        (i + stride) - stride == i,
{
    let q: int = i / stride;
    let r: int = i % stride;
    lemma_fundamental_div_mod(i, stride);
    lemma_fundamental_div_mod(q, 2);
    let h: int = q / 2;
    // q is even, so i = 2*h*stride + r.
    lemma_fundamental_div_mod(len, 2 * stride);
    let m: int = len / (2 * stride);
    assert(len == 2 * stride * m);
    // i < len forces h < m, hence i + stride <= 2*h*stride + stride + r < len.
    assert(h < m && i + stride < len) by (nonlinear_arith)
        requires
            stride >= 1,
            0 <= r < stride,
            i == stride * (2 * h) + r,
            len == 2 * stride * m,
            i < len,
    ;
    assert((i + stride) / stride == q + 1 && (i + stride) % stride == r) by {
        assert(i + stride == stride * (q + 1) + r) by (nonlinear_arith)
            requires
                i == stride * q + r,
        ;
        lemma_fundamental_div_mod_converse(i + stride, stride, q + 1, r);
    }
    assert((q + 1) % 2 == 1) by {
        lemma_fundamental_div_mod_converse(q + 1, 2, h, 1);
    }
}

/// An index with the pairing bit set has its partner `stride` below it.
pub proof fn lemma_pair_down(i: int, stride: int)
    requires
        stride >= 1,
        0 <= i,
        pair_bit(i, stride),
    ensures
        i - stride >= 0,
        !pair_bit(i - stride, stride),
        (i - stride) + stride == i,
{
    let q: int = i / stride;
    let r: int = i % stride;
    lemma_fundamental_div_mod(i, stride);
    lemma_fundamental_div_mod(q, 2);
    let h: int = q / 2;
    // q is odd: q == 2*h + 1, and q >= 0 because i >= 0 and stride >= 1.
    assert(q >= 0 && i == stride * q + r ==> i - stride == stride * (q - 1) + r)
        by (nonlinear_arith);
    assert(q >= 1);
    assert((i - stride) / stride == q - 1 && (i - stride) % stride == r) by {
        assert(i - stride == stride * (q - 1) + r) by (nonlinear_arith)
            requires
                i == stride * q + r,
        ;
        assert(i - stride >= 0) by (nonlinear_arith)
            requires
                i == stride * q + r,
                q >= 1,
                r >= 0,
                stride >= 1,
        ;
        lemma_fundamental_div_mod_converse(i - stride, stride, q - 1, r);
    }
    assert((q - 1) % 2 == 0) by {
        lemma_fundamental_div_mod_converse(q - 1, 2, h, 0);
    }
}

/// One matrix row applied to an executable amplitude pair; exact with
/// respect to the spec rows, and bounded.
fn apply_row(g0: Complex, g1: Complex, a0: Complex, a1: Complex) -> (r: Complex)
    requires
        c_bounded(g0@, SCALE as int),
        c_bounded(g1@, SCALE as int),
        c_bounded(a0@, 2 * (SCALE as int)),
        c_bounded(a1@, 2 * (SCALE as int)),
    ensures
        r@ == cadd_model(cmul_model(g0@, a0@), cmul_model(g1@, a1@)),
        c_bounded(r@, 0x800_0000),
{
    let p0: Complex = cmul(g0, a0);
    let p1: Complex = cmul(g1, a1);
    proof {
        lemma_cmul_entry_bound(g0@, a0@);
        lemma_cmul_entry_bound(g1@, a1@);
    }
    cadd(p0, p1)
}

/// The fixed-point product of a gate entry (modulus at most 1) and a
/// normalized amplitude has components within `[-4*SCALE, 4*SCALE]`.
proof fn lemma_cmul_entry_bound(g: CNum, a: CNum)
    requires
        c_bounded(g, SCALE as int),
        c_bounded(a, 2 * (SCALE as int)),
    ensures
        c_bounded(cmul_model(g, a), 4 * (SCALE as int)),
{
    let s: int = SCALE as int;
    assert(-(4 * s) * s <= g.re * a.re - g.im * a.im <= (4 * s) * s
        && -(4 * s) * s <= g.re * a.im + g.im * a.re <= (4 * s) * s) by (nonlinear_arith)
        requires
            c_bounded(g, s),
            c_bounded(a, 2 * s),
            s == 16777216,
    ;
    lemma_sdiv_bound(g.re * a.re - g.im * a.im, 4 * s);
    lemma_sdiv_bound(g.re * a.im + g.im * a.re, 4 * s);
}

/// Apply `gate` to every amplitude pair at distance `stride`; returns the
/// new amplitude vector, equal to the spec-level `transformed` sequence.
pub fn apply_to_amplitudes(gate: &Gate, amps: &Vec<Complex>, stride: usize) -> (r: Vec<Complex>)
    requires
        gate.wf(),
        stride >= 1,
        amps@.len() as int % (2 * stride as int) == 0,
        forall|i: int| 0 <= i < amps@.len() ==> c_bounded(#[trigger] amps@[i]@, 2 * (SCALE as int)),
    ensures
        r@.len() == amps@.len(),
        forall|i: int| 0 <= i < r@.len()
            ==> #[trigger] r@[i]@ == transformed(gate@, amps@.map_values(|c: Complex| c@), stride as int)[i],
        forall|i: int| 0 <= i < r@.len() ==> c_bounded(#[trigger] r@[i]@, 0x1000_0000),
{
    let ghost s: Seq<CNum> = amps@.map_values(|c: Complex| c@);
    let ghost t: Seq<CNum> = transformed(gate@, s, stride as int);
    let n: usize = amps.len();
    let mut out: Vec<Complex> = Vec::new();
    let mut k: usize = 0;
    // Start from a zero vector, then fill both members of each pair when
    // its lower index comes up.
    while k < n
        invariant
            out@.len() == k <= n,
            forall|i: int| 0 <= i < k ==> #[trigger] out@[i]@ == czero(),
        decreases n - k,
    {
        out.push(Complex::zero());
        k = k + 1;
    }
    proof {
        assert forall|j: int| 0 <= j < n implies pair_base(j, stride as int) >= 0 by {
            if pair_bit(j, stride as int) {
                lemma_pair_down(j, stride as int);
            }
        }
    }
    let mut i: usize = 0;
    while i < n
        invariant
            n == amps@.len(),
            s == amps@.map_values(|c: Complex| c@),
            t == transformed(gate@, s, stride as int),
            gate.wf(),
            stride >= 1,
            n as int % (2 * stride as int) == 0,
            forall|j: int| 0 <= j < n ==> c_bounded(#[trigger] amps@[j]@, 2 * (SCALE as int)),
            i <= n,
            out@.len() == n,
            forall|j: int| 0 <= j < n && pair_base(j, stride as int) < i
                ==> #[trigger] out@[j]@ == t[j] && c_bounded(out@[j]@, 0x1000_0000),
            forall|j: int| 0 <= j < n && pair_base(j, stride as int) >= i
                ==> #[trigger] out@[j]@ == czero(),
        decreases n - i,
    {
        if (i / stride) % 2 == 0 {
            proof {
                lemma_pair_up(i as int, stride as int, n as int);
            }
            let j: usize = i + stride;
            let a0: Complex = amps[i];
            let a1: Complex = amps[j];
            let new0: Complex = apply_row(gate.g00, gate.g01, a0, a1);
            let new1: Complex = apply_row(gate.g10, gate.g11, a0, a1);
            out.set(i, new0);
            out.set(j, new1);
            proof {
                assert(t[i as int] == row0(gate@, s[i as int], s[j as int]));
                assert(t[j as int] == row1(gate@, s[i as int], s[j as int]));
                assert forall|x: int| 0 <= x < n && pair_base(x, stride as int) < i + 1
                    implies #[trigger] out@[x]@ == t[x] && c_bounded(out@[x]@, 0x1000_0000) by {
                    if pair_bit(x, stride as int) {
                        lemma_pair_down(x, stride as int);
                    }
                }
            }
        } else {
            proof {
                lemma_pair_down(i as int, stride as int);
                assert forall|x: int| 0 <= x < n && pair_base(x, stride as int) < i + 1
                    implies #[trigger] out@[x]@ == t[x] && c_bounded(out@[x]@, 0x1000_0000) by {
                    if pair_bit(x, stride as int) {
                        lemma_pair_down(x, stride as int);
                    }
                    assert(pair_base(x, stride as int) != i);
                }
            }
        }
        i = i + 1;
    }
    out
}

/// The lower index of the pair that index `j` belongs to.
pub open spec fn pair_base(j: int, stride: int) -> int {
    if pair_bit(j, stride) {
        j - stride
    } else {
        j
    }
}

} // verus!
