//! The quantum engine: owns one register, applies gates to it, and keeps an
//! append-only history of the gates applied.

use vstd::prelude::*;
use vstd::arithmetic::power2::{
    pow2, lemma_pow2_adds, lemma2_to64, lemma_pow2_strictly_increases,
};
use vstd::arithmetic::div_mod::lemma_mod_multiples_basic;
use crate::complex::{Complex, c_bounded, SCALE};
use crate::state::{
    QuantumState, MAX_QUBITS, NORM_ONE, NORM_TOL, basis_state, norm_in_range,
    lemma_norm_basis, lemma_norm_component_bound, lemma_psum_is_norm_sq, pow2_exec,
    psum_exec, sq_mag, sq_mag_vec,
};
use crate::gate::{Gate, apply_to_amplitudes, transformed};
use crate::text::{gate_label, gate_label_spec};

verus! {

/// Errors of the quantum engine.
#[derive(Clone, Copy, Debug, PartialEq, Eq, Structural)]
pub enum QuantumError {
    /// A register of zero qubits was requested.
    InvalidQubitCount,
    /// The requested register would exceed the memory budget (`MAX_QUBITS`).
    CapacityExceeded,
    /// A gate targeted a qubit index outside the register.
    IndexOutOfRange,
    /// The amplitudes fail the probability-sum check.
    UnnormalizedState,
}

/// Orchestrates a register: gate application and measurement, with an
/// append-only log of applied gates.
#[derive(Clone, Debug)]
pub struct QuantumEngine {
    pub state: QuantumState,
    pub gates_applied: Vec<String>,
}

impl QuantumEngine {
    pub open spec fn wf(&self) -> bool {
        self.state.wf()
    }

    /// The applied-gate history as a sequence of log lines.
    pub open spec fn history_model(&self) -> Seq<Seq<char>> {
        self.gates_applied@.map_values(|s: String| s@)
    }

    /// Build an engine in the all-zero basis state: amplitude `1.0` at
    /// index 0, `0` elsewhere, over `2^n_qubits` amplitudes.
    pub fn new(n_qubits: usize) -> (r: Result<QuantumEngine, QuantumError>)
        ensures
            n_qubits == 0 ==> r == Err::<QuantumEngine, QuantumError>(
                QuantumError::InvalidQubitCount,
            ),
            n_qubits > MAX_QUBITS ==> r == Err::<QuantumEngine, QuantumError>(
                QuantumError::CapacityExceeded,
            ),
            1 <= n_qubits <= MAX_QUBITS ==> (r matches Ok(e) && {
                &&& e.wf()
                &&& e.state.n_qubits == n_qubits
                &&& e.state@ == basis_state(pow2(n_qubits as nat), 0)
                &&& crate::state::norm_sq(e.state@) == NORM_ONE
                &&& e.history_model() == Seq::<Seq<char>>::empty()
            }),
    {
        if n_qubits == 0 {
            return Err(QuantumError::InvalidQubitCount);
        }
        if n_qubits > MAX_QUBITS {
            return Err(QuantumError::CapacityExceeded);
        }
        let dim: usize = pow2_exec(n_qubits);
        let mut amps: Vec<Complex> = Vec::new();
        amps.push(Complex::one());
        let mut k: usize = 1;
        while k < dim
            invariant
                1 <= k <= dim,
                amps@.len() == k,
                amps@[0]@ == crate::complex::cone(),
                forall|i: int| 1 <= i < k ==> #[trigger] amps@[i]@ == crate::complex::czero(),
            decreases dim - k,
        {
            amps.push(Complex::zero());
            k = k + 1;
        }
        let state = QuantumState { amplitudes: amps, n_qubits };
        proof {
            assert(state@ =~= basis_state(pow2(n_qubits as nat), 0));
            lemma_norm_basis(pow2(n_qubits as nat), 0);
            assert(Seq::<String>::empty().map_values(|s: String| s@) =~= Seq::<
                Seq<char>,
            >::empty());
        }
        Ok(QuantumEngine { state, gates_applied: Vec::new() })
    }

    /// A read-only view of the applied-gate history.
    pub fn history(&self) -> (h: &Vec<String>)
        ensures
            h@.map_values(|s: String| s@) == self.history_model(),
    {
        &self.gates_applied
    }

    /// Apply a single-qubit gate to `qubit`.
    ///
    /// Fails with `IndexOutOfRange` (state untouched) if the qubit does not
    /// exist, and with `UnnormalizedState` (state untouched) if the
    /// transformed amplitudes would leave the normalization tolerance, as
    /// they can for a non-unitary matrix. Otherwise the new state is exactly
    /// the `transformed` sequence and one record is appended to the history.
    pub fn apply_gate(&mut self, gate: &Gate, qubit: usize) -> (r: Result<(), QuantumError>)
        requires
            old(self).wf(),
            gate.wf(),
        ensures
            final(self).wf(),
            final(self).state.n_qubits == old(self).state.n_qubits,
            qubit >= old(self).state.n_qubits ==> {
                &&& r == Err::<(), QuantumError>(QuantumError::IndexOutOfRange)
                &&& final(self).state@ == old(self).state@
                &&& final(self).history_model() == old(self).history_model()
            },
            qubit < old(self).state.n_qubits ==> {
                let stride = pow2(
                    (old(self).state.n_qubits - 1 - qubit) as nat,
                ) as int;
                let t = transformed(gate@, old(self).state@, stride);
                if norm_in_range(t) {
                    &&& r == Ok::<(), QuantumError>(())
                    &&& final(self).state@ == t
                    &&& final(self).history_model() == old(self).history_model().push(
                        gate_label_spec(qubit as nat),
                    )
                } else {
                    &&& r == Err::<(), QuantumError>(QuantumError::UnnormalizedState)
                    &&& final(self).state@ == old(self).state@
                    &&& final(self).history_model() == old(self).history_model()
                }
            },
    {
        let n: usize = self.state.n_qubits;
        if qubit >= n {
            return Err(QuantumError::IndexOutOfRange);
        }
        let b: usize = n - 1 - qubit;
        let stride: usize = pow2_exec(b);
        let ghost s = self.state@;
        let ghost t = transformed(gate@, s, stride as int);
        proof {
            // dim == 2^n == 2^qubit * 2^(b+1), so 2*stride divides dim.
            lemma_pow2_adds(qubit as nat, (b + 1) as nat);
            lemma_pow2_adds(b as nat, 1);
            lemma2_to64();
            assert(pow2((b + 1) as nat) == 2 * stride as nat);
            lemma_mod_multiples_basic(
                pow2(qubit as nat) as int,
                2 * stride as int,
            );
            assert(self.state.amplitudes@.len() as int % (2 * stride as int) == 0);
            assert forall|i: int| 0 <= i < self.state.amplitudes@.len()
                implies c_bounded(#[trigger] self.state.amplitudes@[i]@, 2 * (SCALE as int)) by {
                lemma_norm_component_bound(s, i);
            }
            if (n as nat) < 24 {
                lemma_pow2_strictly_increases(n as nat, 24);
            }
        }
        let cand: Vec<Complex> = apply_to_amplitudes(gate, &self.state.amplitudes, stride);
        let probs: Vec<u64> = sq_mag_vec(&cand);
        proof {
            assert forall|i: int| 0 <= i < probs@.len()
                implies #[trigger] probs@[i] <= 0x200_0000_0000_0000 by {
                let c = cand@[i]@;
                assert(c.re * c.re <= 0x100_0000_0000_0000
                    && c.im * c.im <= 0x100_0000_0000_0000) by (nonlinear_arith)
                    requires
                        c_bounded(c, 0x1000_0000),
                ;
            }
        }
        let total: u128 = psum_exec(&probs);
        proof {
            assert forall|i: int| 0 <= i < probs@.len()
                implies #[trigger] probs@[i] as int == sq_mag(t[i]) by {
                assert(cand@[i]@ == t[i]);
            }
            lemma_psum_is_norm_sq(probs@, t);
        }
        if (NORM_ONE - NORM_TOL) as u128 <= total && total <= (NORM_ONE + NORM_TOL) as u128 {
            self.state.amplitudes = cand;
            self.gates_applied.push(gate_label(qubit));
            proof {
                assert(self.state@ =~= t);
                assert(self.gates_applied@.map_values(|x: String| x@) =~= old(
                    self,
                ).gates_applied@.map_values(|x: String| x@).push(gate_label_spec(qubit as nat)));
            }
            Ok(())
        } else {
            Err(QuantumError::UnnormalizedState)
        }
    }
}

} // verus!
