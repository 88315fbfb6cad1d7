//! Measurement sampling: inverse-CDF draws from the basis-state probability
//! distribution, and histogram rendering.
//!
//! A probability is the squared magnitude of an amplitude, in scale
//! `SCALE * SCALE`. A draw is a uniform random integer below the probability
//! total; the selected basis index is the first whose cumulative probability
//! exceeds the draw. The histogram holds one entry per basis index that was
//! actually sampled, in ascending index order, keyed by the fixed-width
//! bitstring of the index (most significant bit first).

use vstd::prelude::*;
use vstd::arithmetic::power2::pow2;
use crate::complex::{SCALE, c_bounded};
use crate::state::{
    QuantumState, MAX_QUBITS, NORM_ONE, NORM_TOL, basis_state, norm_in_range, psum,
    lemma_psum_is_norm_sq, sq_mag, sq_mag_vec, psum_exec,
};
use crate::engine::{QuantumEngine, QuantumError};
use crate::text::{bitstring, bitstring_exec, lemma_bitstring_injective};
use crate::rng::rand_below;

verus! {

/// Sum of a vector of per-index sample counts.
pub open spec fn sum_counts(s: Seq<usize>) -> int
    decreases s.len(),
{
    if s.len() == 0 {
        0
    } else {
        sum_counts(s.drop_last()) + s.last()
    }
}

/// The spec-level histogram of a count vector: one `(bitstring, count)`
/// entry per index with a positive count, in ascending index order.
pub open spec fn hist_model(counts: Seq<usize>, width: nat) -> Seq<(Seq<char>, int)>
    decreases counts.len(),
{
    if counts.len() == 0 {
        Seq::empty()
    } else {
        let rest = hist_model(counts.drop_last(), width);
        if counts.last() > 0 {
            rest.push((bitstring(counts.len() - 1, width), counts.last() as int))
        } else {
            rest
        }
    }
}

/// The view of an executable histogram.
pub open spec fn hist_view(h: Seq<(String, usize)>) -> Seq<(Seq<char>, int)> {
    h.map_values(|p: (String, usize)| (p.0@, p.1 as int))
}

/// Total count of a spec-level histogram.
pub open spec fn hsum(m: Seq<(Seq<char>, int)>) -> int
    decreases m.len(),
{
    if m.len() == 0 {
        0
    } else {
        hsum(m.drop_last()) + m.last().1
    }
}

pub proof fn lemma_sum_counts_push(s: Seq<usize>, x: usize)
    ensures
        sum_counts(s.push(x)) == sum_counts(s) + x,
{
    assert(s.push(x).drop_last() =~= s);
}

/// Every count is at most the total, and the total is nonnegative.
pub proof fn lemma_count_le_sum(s: Seq<usize>, i: int)
    requires
        0 <= i < s.len(),
    ensures
        s[i] <= sum_counts(s),
        sum_counts(s) >= 0,
    decreases s.len(),
{
    lemma_sum_counts_nonneg(s.drop_last());
    if i < s.len() - 1 {
        lemma_count_le_sum(s.drop_last(), i);
    }
}

pub proof fn lemma_sum_counts_nonneg(s: Seq<usize>)
    ensures
        sum_counts(s) >= 0,
    decreases s.len(),
{
    if s.len() > 0 {
        lemma_sum_counts_nonneg(s.drop_last());
    }
}

/// Replacing one count changes the total by the difference.
pub proof fn lemma_sum_counts_update(s: Seq<usize>, i: int, x: usize)
    requires
        0 <= i < s.len(),
    ensures
        sum_counts(s.update(i, x)) == sum_counts(s) - s[i] + x,
    decreases s.len(),
{
    if i == s.len() - 1 {
        assert(s.update(i, x).drop_last() =~= s.drop_last());
    } else {
        assert(s.update(i, x).drop_last() =~= s.drop_last().update(i, x));
        lemma_sum_counts_update(s.drop_last(), i, x);
    }
}

/// If every count but `k` is zero, the total sits at `k`.
pub proof fn lemma_counts_concentrated(counts: Seq<usize>, k: int)
    requires
        0 <= k < counts.len(),
        forall|i: int| 0 <= i < counts.len() && i != k ==> counts[i] == 0,
    ensures
        sum_counts(counts) == counts[k],
    decreases counts.len(),
{
    if k == counts.len() - 1 {
        lemma_counts_all_zero(counts.drop_last());
    } else {
        lemma_counts_concentrated(counts.drop_last(), k);
    }
}

pub proof fn lemma_counts_all_zero(counts: Seq<usize>)
    requires
        forall|i: int| 0 <= i < counts.len() ==> counts[i] == 0,
    ensures
        sum_counts(counts) == 0,
    decreases counts.len(),
{
    if counts.len() > 0 {
        lemma_counts_all_zero(counts.drop_last());
    }
}

/// The histogram total equals the count total.
pub proof fn lemma_hist_sum(counts: Seq<usize>, width: nat)
    ensures
        hsum(hist_model(counts, width)) == sum_counts(counts),
    decreases counts.len(),
{
    if counts.len() > 0 {
        lemma_hist_sum(counts.drop_last(), width);
        if counts.last() > 0 {
            let rest = hist_model(counts.drop_last(), width);
            let e = (bitstring(counts.len() - 1, width), counts.last() as int);
            assert(rest.push(e).drop_last() =~= rest);
        }
    }
}

/// Every histogram entry is the bitstring and count of a sampled index, and
/// no two entries share a key.
pub proof fn lemma_hist_entries(counts: Seq<usize>, width: nat)
    requires
        counts.len() <= pow2(width),
    ensures
        forall|j: int| 0 <= j < hist_model(counts, width).len() ==> exists|i: int|
            0 <= i < counts.len() && #[trigger] hist_model(counts, width)[j]
                == (bitstring(i, width), counts[i] as int) && counts[i] > 0,
        forall|j1: int, j2: int| 0 <= j1 < j2 < hist_model(counts, width).len()
            ==> hist_model(counts, width)[j1].0 != hist_model(counts, width)[j2].0,
    decreases counts.len(),
{
    if counts.len() > 0 {
        let m = hist_model(counts, width);
        let rest = hist_model(counts.drop_last(), width);
        lemma_hist_entries(counts.drop_last(), width);
        assert forall|j: int| 0 <= j < rest.len() implies exists|i: int|
            0 <= i < counts.len() && #[trigger] m[j] == (bitstring(i, width), counts[i] as int)
                && counts[i] > 0 by {
            let i = choose|i: int|
                0 <= i < counts.drop_last().len() && #[trigger] rest[j]
                    == (bitstring(i, width), counts.drop_last()[i] as int)
                    && counts.drop_last()[i] > 0;
            assert(m[j] == (bitstring(i, width), counts[i] as int) && counts[i] > 0);
        }
        if counts.last() > 0 {
            let last_i: int = counts.len() - 1;
            assert(m[m.len() - 1] == (bitstring(last_i, width), counts[last_i] as int));
            assert forall|j: int| 0 <= j < rest.len() implies (#[trigger] m[j]).0 != m[
                m.len() - 1
            ].0 by {
                let i = choose|i: int|
                    0 <= i < counts.len() && #[trigger] m[j]
                        == (bitstring(i, width), counts[i] as int) && counts[i] > 0;
                if i != last_i {
                    lemma_bitstring_injective(i, last_i, width);
                } else {
                    let ii = choose|ii: int|
                        0 <= ii < counts.drop_last().len() && #[trigger] rest[j]
                            == (bitstring(ii, width), counts.drop_last()[ii] as int)
                            && counts.drop_last()[ii] > 0;
                    lemma_bitstring_injective(ii, last_i, width);
                }
            }
        }
    }
}

proof fn lemma_hist_all_zero(counts: Seq<usize>, width: nat)
    requires
        forall|i: int| 0 <= i < counts.len() ==> counts[i] == 0,
    ensures
        hist_model(counts, width) == Seq::<(Seq<char>, int)>::empty(),
    decreases counts.len(),
{
    if counts.len() > 0 {
        lemma_hist_all_zero(counts.drop_last(), width);
    }
}

/// A count vector concentrated at one index renders as a single histogram
/// entry.
pub proof fn lemma_hist_single(counts: Seq<usize>, width: nat, k: int)
    requires
        0 <= k < counts.len(),
        counts[k] > 0,
        forall|i: int| 0 <= i < counts.len() && i != k ==> counts[i] == 0,
    ensures
        hist_model(counts, width) =~= seq![(bitstring(k, width), counts[k] as int)],
    decreases counts.len(),
{
    if k == counts.len() - 1 {
        lemma_hist_all_zero(counts.drop_last(), width);
    } else {
        lemma_hist_single(counts.drop_last(), width, k);
    }
}

/// First basis index whose cumulative probability exceeds the draw.
fn select_index(probs: &Vec<u64>, r: u64) -> (idx: usize)
    requires
        (r as int) < psum(probs@),
    ensures
        idx < probs@.len(),
        psum(probs@.take(idx as int)) <= r as int,
        (r as int) < psum(probs@.take(idx as int + 1)),
        probs@[idx as int] > 0,
{
    let n: usize = probs.len();
    let mut acc: u128 = 0;
    let mut i: usize = 0;
    while i < n
        invariant
            n == probs@.len(),
            (r as int) < psum(probs@),
            i <= n,
            acc as int == psum(probs@.take(i as int)),
            acc <= r as u128,
        decreases n - i,
    {
        proof {
            assert(probs@.take(i as int + 1).drop_last() =~= probs@.take(i as int));
        }
        let next: u128 = acc + probs[i] as u128;
        if (r as u128) < next {
            return i;
        }
        acc = next;
        i = i + 1;
    }
    proof {
        assert(probs@.take(n as int) =~= probs@);
        assert(false);
    }
    0
}

/// Draw `shots` samples from the squared-magnitude distribution of `state`;
/// returns the per-basis-index sample counts.
///
/// Fails with `UnnormalizedState` (if and only if the probability total is
/// outside the tolerance around 1). On success the counts total `shots` and
/// only indices of positive probability are ever hit.
pub fn sample_counts(state: &QuantumState, shots: usize, rng: &mut rand::rngs::StdRng) -> (r:
    Result<Vec<usize>, QuantumError>)
    requires
        forall|i: int| 0 <= i < state.amplitudes@.len()
            ==> c_bounded(#[trigger] state.amplitudes@[i]@, 2 * (SCALE as int)),
        state.amplitudes@.len() <= 0x100_0000,
        shots >= 1,
    ensures
        r is Ok <==> norm_in_range(state@),
        !norm_in_range(state@) ==> r == Err::<Vec<usize>, QuantumError>(
            QuantumError::UnnormalizedState,
        ),
        r matches Ok(counts) ==> {
            &&& counts@.len() == state@.len()
            &&& sum_counts(counts@) == shots as int
            &&& forall|i: int| 0 <= i < counts@.len() && counts@[i] > 0
                ==> sq_mag(state@[i]) > 0
        },
{
    let probs: Vec<u64> = sq_mag_vec(&state.amplitudes);
    proof {
        assert forall|i: int| 0 <= i < probs@.len()
            implies #[trigger] probs@[i] <= 0x200_0000_0000_0000 by {
            let c = state.amplitudes@[i]@;
            assert(c.re * c.re <= 0x100_0000_0000_0000 && c.im * c.im <= 0x100_0000_0000_0000)
                by (nonlinear_arith)
                requires
                    c_bounded(c, 2 * (SCALE as int)),
                    SCALE == 16777216,
            ;
        }
        assert forall|i: int| 0 <= i < probs@.len()
            implies #[trigger] probs@[i] as int == sq_mag(state@[i]) by {
            assert(state@[i] == state.amplitudes@[i]@);
        }
        lemma_psum_is_norm_sq(probs@, state@);
    }
    let total128: u128 = psum_exec(&probs);
    if total128 < (NORM_ONE - NORM_TOL) as u128 || total128 > (NORM_ONE + NORM_TOL) as u128 {
        return Err(QuantumError::UnnormalizedState);
    }
    let total: u64 = total128 as u64;
    let dim: usize = state.amplitudes.len();
    let mut counts: Vec<usize> = Vec::new();
    let mut k: usize = 0;
    while k < dim
        invariant
            k <= dim,
            counts@.len() == k,
            forall|i: int| 0 <= i < k ==> #[trigger] counts@[i] == 0,
            sum_counts(counts@) == 0,
        decreases dim - k,
    {
        proof {
            lemma_sum_counts_push(counts@, 0);
        }
        counts.push(0);
        k = k + 1;
    }
    let mut done: usize = 0;
    while done < shots
        invariant
            counts@.len() == dim == state@.len() == probs@.len(),
            total as int == psum(probs@),
            total >= 1,
            forall|i: int| 0 <= i < probs@.len()
                ==> #[trigger] probs@[i] as int == sq_mag(state@[i]),
            done <= shots,
            sum_counts(counts@) == done as int,
            forall|i: int| 0 <= i < counts@.len() && #[trigger] counts@[i] > 0
                ==> sq_mag(state@[i]) > 0,
        decreases shots - done,
    {
        let draw: u64 = rand_below(rng, total);
        let idx: usize = select_index(&probs, draw);
        proof {
            lemma_count_le_sum(counts@, idx as int);
        }
        let c: usize = counts[idx];
        let ghost pre = counts@;
        counts.set(idx, c + 1);
        proof {
            lemma_sum_counts_update(pre, idx as int, (c + 1) as usize);
        }
        done = done + 1;
    }
    Ok(counts)
}

/// Render a count vector as a histogram keyed by fixed-width bitstrings.
pub fn counts_to_histogram(counts: &Vec<usize>, width: usize) -> (h: Vec<(String, usize)>)
    requires
        counts@.len() <= 0x100_0000,
    ensures
        hist_view(h@) == hist_model(counts@, width as nat),
{
    let n: usize = counts.len();
    let mut h: Vec<(String, usize)> = Vec::new();
    let mut i: usize = 0;
    while i < n
        invariant
            n == counts@.len() <= 0x100_0000,
            i <= n,
            hist_view(h@) =~= hist_model(counts@.take(i as int), width as nat),
        decreases n - i,
    {
        proof {
            assert(counts@.take(i as int + 1).drop_last() =~= counts@.take(i as int));
        }
        let c: usize = counts[i];
        if c > 0 {
            let key: String = bitstring_exec(i as u64, width);
            h.push((key, c));
            proof {
                assert(hist_view(h@) =~= hist_model(counts@.take(i as int + 1), width as nat));
            }
        } else {
            proof {
                assert(hist_view(h@) =~= hist_model(counts@.take(i as int + 1), width as nat));
            }
        }
        i = i + 1;
    }
    proof {
        assert(counts@.take(n as int) =~= counts@);
    }
    h
}

/// What a measurement histogram promises: counts total `shots`; keys are
/// distinct; every entry belongs to a basis index of positive probability;
/// and measuring a pure basis state yields that one bitstring with all the
/// counts.
pub open spec fn histogram_ok(
    hv: Seq<(Seq<char>, int)>,
    s: Seq<crate::complex::CNum>,
    width: nat,
    shots: int,
) -> bool {
    &&& hsum(hv) == shots
    &&& (forall|j1: int, j2: int| 0 <= j1 < j2 < hv.len()
        ==> (#[trigger] hv[j1]).0 != (#[trigger] hv[j2]).0)
    &&& (forall|j: int| 0 <= j < hv.len() ==> exists|i: int|
        0 <= i < s.len() && (#[trigger] hv[j]).0 == bitstring(i, width) && sq_mag(s[i]) > 0
            && hv[j].1 > 0)
    &&& (forall|k: int| 0 <= k < s.len() && s == #[trigger] basis_state(s.len(), k)
        ==> hv == seq![(bitstring(k, width), shots)])
}

/// Measure an arbitrary register: `shots` independent inverse-CDF draws.
///
/// Fails with `UnnormalizedState` if and only if the probability total is
/// outside the tolerance around 1.
pub fn measure_state(state: &QuantumState, shots: usize, rng: &mut rand::rngs::StdRng) -> (r:
    Result<Vec<(String, usize)>, QuantumError>)
    requires
        1 <= state.n_qubits <= MAX_QUBITS,
        state.amplitudes@.len() == pow2(state.n_qubits as nat),
        forall|i: int| 0 <= i < state.amplitudes@.len()
            ==> c_bounded(#[trigger] state.amplitudes@[i]@, 2 * (SCALE as int)),
        shots >= 1,
    ensures
        r is Ok <==> norm_in_range(state@),
        !norm_in_range(state@) ==> r == Err::<Vec<(String, usize)>, QuantumError>(
            QuantumError::UnnormalizedState,
        ),
        r matches Ok(h) ==> histogram_ok(
            hist_view(h@),
            state@,
            state.n_qubits as nat,
            shots as int,
        ),
{
    proof {
        if (state.n_qubits as nat) < 24 {
            vstd::arithmetic::power2::lemma_pow2_strictly_increases(state.n_qubits as nat, 24);
        }
        vstd::arithmetic::power2::lemma2_to64();
    }
    let counts: Vec<usize> = match sample_counts(state, shots, rng) {
        Ok(c) => c,
        Err(e) => {
            return Err(e);
        },
    };
    let h: Vec<(String, usize)> = counts_to_histogram(&counts, state.n_qubits);
    let ghost width = state.n_qubits as nat;
    let ghost hv = hist_view(h@);
    proof {
        lemma_hist_sum(counts@, width);
        lemma_hist_entries(counts@, width);
        assert forall|j: int| 0 <= j < hv.len() implies exists|i: int|
            0 <= i < state@.len() && (#[trigger] hv[j]).0 == bitstring(i, width)
                && sq_mag(state@[i]) > 0 && hv[j].1 > 0 by {
            let i = choose|i: int|
                0 <= i < counts@.len() && #[trigger] hist_model(counts@, width)[j]
                    == (bitstring(i, width), counts@[i] as int) && counts@[i] > 0;
            assert(hv[j].0 == bitstring(i, width) && sq_mag(state@[i]) > 0 && hv[j].1 > 0);
        }
        assert forall|k: int| 0 <= k < state@.len() && state@ == #[trigger] basis_state(
            state@.len(),
            k,
        ) implies hv == seq![(bitstring(k, width), shots as int)] by {
            assert forall|i: int| 0 <= i < counts@.len() && i != k
                implies #[trigger] counts@[i] == 0 by {
                assert(state@[i] == crate::complex::czero());
                assert(sq_mag(crate::complex::czero()) == 0) by (nonlinear_arith);
            }
            lemma_counts_concentrated(counts@, k);
            lemma_hist_single(counts@, width, k);
            assert(hv =~= seq![(bitstring(k, width), shots as int)]);
        }
    }
    Ok(h)
}

impl QuantumEngine {
    /// Measure with a caller-supplied generator, so that sampling is
    /// deterministic under a fixed seed. A well-formed engine state is
    /// normalized, so this never fails.
    pub fn measure_with_rng(&self, shots: usize, rng: &mut rand::rngs::StdRng) -> (r: Result<
        Vec<(String, usize)>,
        QuantumError,
    >)
        requires
            self.wf(),
            shots >= 1,
        ensures
            r is Ok,
            r matches Ok(h) ==> histogram_ok(
                hist_view(h@),
                self.state@,
                self.state.n_qubits as nat,
                shots as int,
            ),
    {
        proof {
            assert forall|i: int| 0 <= i < self.state.amplitudes@.len()
                implies c_bounded(#[trigger] self.state.amplitudes@[i]@, 2 * (SCALE as int)) by {
                crate::state::lemma_norm_component_bound(self.state@, i);
            }
        }
        measure_state(&self.state, shots, rng)
    }

    /// Measure with a freshly seeded generator.
    pub fn measure(&self, shots: usize) -> (r: Result<Vec<(String, usize)>, QuantumError>)
        requires
            self.wf(),
            shots >= 1,
        ensures
            r is Ok,
            r matches Ok(h) ==> histogram_ok(
                hist_view(h@),
                self.state@,
                self.state.n_qubits as nat,
                shots as int,
            ),
    {
        let mut rng = crate::rng::fresh_rng();
        self.measure_with_rng(shots, &mut rng)
    }
}

} // verus!
