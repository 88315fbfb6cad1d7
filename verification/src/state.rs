//! The quantum register: `2^n_qubits` fixed-point complex amplitudes.
//!
//! A well-formed state is normalized: the sum of squared magnitudes of its
//! amplitudes equals `NORM_ONE` (the fixed-point square of `1.0`) within the
//! tolerance `NORM_TOL`. The normalization bound also keeps every amplitude
//! component small enough that gate arithmetic cannot overflow.

use vstd::prelude::*;
use vstd::arithmetic::power2::pow2;
use crate::complex::{CNum, Complex, SCALE, c_bounded};

verus! {

/// Squared magnitude of `1.0`: `SCALE * SCALE`.
pub const NORM_ONE: u64 = 281474976710656;

/// Normalization tolerance: `2^28`, about `1e-6` relative to `NORM_ONE`.
pub const NORM_TOL: u64 = 268435456;

/// Largest supported register size; the amplitude vector has `2^n` entries.
pub const MAX_QUBITS: usize = 24;

/// Squared magnitude of one amplitude, in scale `SCALE * SCALE`.
pub open spec fn sq_mag(a: CNum) -> int {
    a.re * a.re + a.im * a.im
}

/// Sum of squared magnitudes of a sequence of amplitudes.
pub open spec fn norm_sq(s: Seq<CNum>) -> int
    decreases s.len(),
{
    if s.len() == 0 {
        0
    } else {
        norm_sq(s.drop_last()) + sq_mag(s.last())
    }
}

/// Sum of a sequence of probabilities.
pub open spec fn psum(s: Seq<u64>) -> int
    decreases s.len(),
{
    if s.len() == 0 {
        0
    } else {
        psum(s.drop_last()) + s.last()
    }
}

/// The state is normalized within tolerance.
pub open spec fn norm_in_range(s: Seq<CNum>) -> bool {
    NORM_ONE - NORM_TOL <= norm_sq(s) <= NORM_ONE + NORM_TOL
}

/// The all-zero basis state: amplitude `1.0` at index `k`, `0` elsewhere,
/// over `len` amplitudes.
pub open spec fn basis_state(len: nat, k: int) -> Seq<CNum> {
    Seq::new(len, |i: int| if i == k { crate::complex::cone() } else { crate::complex::czero() })
}

/// An `n`-qubit register of fixed-point complex amplitudes.
#[derive(Clone, Debug)]
pub struct QuantumState {
    pub amplitudes: Vec<Complex>,
    pub n_qubits: usize,
}

impl View for QuantumState {
    type V = Seq<CNum>;

    open spec fn view(&self) -> Seq<CNum> {
        self.amplitudes@.map_values(|c: Complex| c@)
    }
}

impl QuantumState {
    /// Invariant: `2^n_qubits` amplitudes, `1 <= n_qubits <= MAX_QUBITS`,
    /// and the state is normalized within tolerance.
    pub open spec fn wf(&self) -> bool {
        &&& 1 <= self.n_qubits <= MAX_QUBITS
        &&& self.amplitudes@.len() == pow2(self.n_qubits as nat)
        &&& norm_in_range(self@)
    }
}

/// Every term of the squared-magnitude sum is nonnegative, so each term is
/// at most the whole sum.
pub proof fn lemma_sq_mag_nonneg(a: CNum)
    ensures
        sq_mag(a) >= 0,
{
    assert(a.re * a.re >= 0 && a.im * a.im >= 0) by (nonlinear_arith);
}

/// The squared norm is a sum of nonnegative terms.
pub proof fn lemma_norm_sq_nonneg(s: Seq<CNum>)
    ensures
        norm_sq(s) >= 0,
    decreases s.len(),
{
    if s.len() > 0 {
        lemma_norm_sq_nonneg(s.drop_last());
        lemma_sq_mag_nonneg(s.last());
    }
}

pub proof fn lemma_sq_mag_le_norm(s: Seq<CNum>, i: int)
    requires
        0 <= i < s.len(),
    ensures
        sq_mag(s[i]) <= norm_sq(s),
    decreases s.len(),
{
    if i == s.len() - 1 {
        lemma_norm_sq_nonneg(s.drop_last());
    } else {
        lemma_sq_mag_le_norm(s.drop_last(), i);
        lemma_sq_mag_nonneg(s.last());
    }
}

/// A normalized (within tolerance) amplitude has both components within
/// `[-2*SCALE, 2*SCALE]`.
pub proof fn lemma_norm_component_bound(s: Seq<CNum>, i: int)
    requires
        0 <= i < s.len(),
        norm_sq(s) <= NORM_ONE + NORM_TOL,
    ensures
        c_bounded(s[i], 2 * (SCALE as int)),
{
    lemma_sq_mag_le_norm(s, i);
    lemma_sq_mag_nonneg(s[i]);
    let a = s[i];
    assert(c_bounded(a, 2 * (SCALE as int))) by (nonlinear_arith)
        requires
            a.re * a.re + a.im * a.im <= NORM_ONE + NORM_TOL,
            NORM_ONE == 281474976710656,
            NORM_TOL == 268435456,
            SCALE == 16777216,
    ;
}

/// If a probability sequence is the pointwise squared magnitude of an
/// amplitude sequence, its sum is the squared norm.
pub proof fn lemma_psum_is_norm_sq(probs: Seq<u64>, s: Seq<CNum>)
    requires
        probs.len() == s.len(),
        forall|i: int| 0 <= i < s.len() ==> probs[i] as int == sq_mag(s[i]),
    ensures
        psum(probs) == norm_sq(s),
    decreases s.len(),
{
    if s.len() > 0 {
        lemma_psum_is_norm_sq(probs.drop_last(), s.drop_last());
    }
}

/// A basis state outside its index range is all zero, with zero norm.
proof fn lemma_norm_basis_zero(len: nat, k: int)
    requires
        k < 0 || k >= len,
    ensures
        norm_sq(basis_state(len, k)) == 0,
    decreases len,
{
    if len > 0 {
        let s = basis_state(len, k);
        assert(s.drop_last() =~= basis_state((len - 1) as nat, k));
        assert(s.last() == crate::complex::czero());
        assert(sq_mag(crate::complex::czero()) == 0) by (nonlinear_arith);
        lemma_norm_basis_zero((len - 1) as nat, k);
    }
}

/// A basis state is exactly normalized: its squared norm is `NORM_ONE`.
pub proof fn lemma_norm_basis(len: nat, k: int)
    requires
        0 <= k < len,
    ensures
        norm_sq(basis_state(len, k)) == NORM_ONE,
    decreases len,
{
    let s = basis_state(len, k);
    assert(sq_mag(crate::complex::cone()) == NORM_ONE) by (nonlinear_arith)
        requires
            SCALE == 16777216,
            NORM_ONE == 281474976710656,
    ;
    assert(s.drop_last() =~= basis_state((len - 1) as nat, k));
    if k == len - 1 {
        lemma_norm_basis_zero((len - 1) as nat, k);
    } else {
        lemma_norm_basis((len - 1) as nat, k);
    }
}

/// `2^e` as a machine integer, for register sizes up to `MAX_QUBITS`.
pub fn pow2_exec(e: usize) -> (r: usize)
    requires
        e <= 24,
    ensures
        r as nat == pow2(e as nat),
        r >= 1,
{
    proof {
        vstd::arithmetic::power2::lemma2_to64();
    }
    let mut r: usize = 1;
    let mut k: usize = 0;
    while k < e
        invariant
            k <= e <= 24,
            r as nat == pow2(k as nat),
        decreases e - k,
    {
        proof {
            vstd::arithmetic::power2::lemma_pow2_adds(k as nat, 1);
            vstd::arithmetic::power2::lemma2_to64();
            if (k as nat) < 23 {
                vstd::arithmetic::power2::lemma_pow2_strictly_increases(k as nat, 23);
            }
        }
        r = r * 2;
        k = k + 1;
    }
    r
}

/// Squared magnitudes of each amplitude, as a probability vector in scale
/// `SCALE * SCALE`.
pub fn sq_mag_vec(amps: &Vec<Complex>) -> (probs: Vec<u64>)
    requires
        forall|i: int| 0 <= i < amps@.len() ==> c_bounded(#[trigger] amps@[i]@, 0x1000_0000),
    ensures
        probs@.len() == amps@.len(),
        forall|i: int| 0 <= i < amps@.len() ==> #[trigger] probs@[i] as int == sq_mag(amps@[i]@),
{
    let mut probs: Vec<u64> = Vec::new();
    let n: usize = amps.len();
    let mut k: usize = 0;
    while k < n
        invariant
            n == amps@.len(),
            k <= n,
            probs@.len() == k,
            forall|i: int| 0 <= i < amps@.len() ==> c_bounded(#[trigger] amps@[i]@, 0x1000_0000),
            forall|i: int| 0 <= i < k ==> #[trigger] probs@[i] as int == sq_mag(amps@[i]@),
        decreases n - k,
    {
        let c: Complex = amps[k];
        proof {
            assert(0 <= c@.re * c@.re <= 0x100_0000_0000_0000
                && 0 <= c@.im * c@.im <= 0x100_0000_0000_0000) by (nonlinear_arith)
                requires
                    c_bounded(c@, 0x1000_0000),
            ;
        }
        let m: u64 = (c.re * c.re) as u64 + (c.im * c.im) as u64;
        probs.push(m);
        k = k + 1;
    }
    probs
}

/// Sum of a probability vector; the accumulator is wide enough that no
/// bounded input can overflow it.
pub fn psum_exec(probs: &Vec<u64>) -> (t: u128)
    requires
        probs@.len() <= 0x100_0000,
        forall|i: int| 0 <= i < probs@.len() ==> #[trigger] probs@[i] <= 0x200_0000_0000_0000,
    ensures
        t as int == psum(probs@),
{
    let mut acc: u128 = 0;
    let n: usize = probs.len();
    let mut k: usize = 0;
    while k < n
        invariant
            n == probs@.len(),
            probs@.len() <= 0x100_0000,
            forall|i: int| 0 <= i < probs@.len() ==> #[trigger] probs@[i] <= 0x200_0000_0000_0000,
            k <= n,
            acc as int == psum(probs@.take(k as int)),
            acc <= (k as u128) * 0x200_0000_0000_0000,
        decreases n - k,
    {
        proof {
            assert(probs@.take(k as int + 1).drop_last() =~= probs@.take(k as int));
            assert(probs@.take(k as int + 1).last() == probs@[k as int]);
            assert((k as int + 1) * 0x200_0000_0000_0000
                == k as int * 0x200_0000_0000_0000 + 0x200_0000_0000_0000) by (nonlinear_arith);
            assert(k as int * 0x200_0000_0000_0000 <= 0x100_0000 * 0x200_0000_0000_0000)
                by (nonlinear_arith)
                requires
                    0 <= k as int <= 0x100_0000,
            ;
        }
        acc = acc + probs[k] as u128;
        k = k + 1;
    }
    proof {
        assert(probs@.take(n as int) =~= probs@);
    }
    acc
}

} // verus!
