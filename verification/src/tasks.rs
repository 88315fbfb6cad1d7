//! Compute jobs and their results.
//!
//! A task's payload is a vector of fixed-point numbers (`i64`, scaled by
//! `SCALE` where fractional). A handler outcome is translated into a
//! `ProcessingResult` by `complete_task`: a failure becomes `success: false`
//! with empty output, and never propagates further.

use vstd::prelude::*;
use crate::engine::QuantumEngine;
use crate::gate::Gate;
use crate::measure::{hist_view, histogram_ok};
use crate::state::basis_state;
use crate::text::bitstring;
use crate::laws::lemma_x_gate_swaps;

verus! {

/// The kind of work a task asks for.
#[derive(Clone, Copy, Debug, PartialEq, Eq, Structural)]
pub enum TaskType {
    QuantumSimulation,
    NeuralNetworkInference,
    Optimization,
}

/// A job submitted to the pool. Immutable once submitted; `id` must be
/// unique per outstanding task.
#[derive(Clone, Debug)]
pub struct ProcessingTask {
    pub id: String,
    pub data: Vec<i64>,
    pub task_type: TaskType,
}

/// The result of one task: produced exactly once per task that reaches a
/// worker.
#[derive(Clone, Debug)]
pub struct ProcessingResult {
    pub task_id: String,
    pub result: Vec<i64>,
    pub success: bool,
}

/// Errors of the dispatch pipeline.
#[derive(Clone, Copy, Debug, PartialEq, Eq, Structural)]
pub enum ProcessingError {
    /// The task queue was closed before this submission.
    QueueClosed,
}

/// What a handler's execution came to: a numeric output, or a caught
/// internal failure.
#[derive(Clone, Debug)]
pub enum HandlerOutcome {
    Success(Vec<i64>),
    Failure,
}

/// Translate a handler outcome for `task` into its result.
///
/// A failure is surfaced only as `success: false` with empty output; it
/// never escapes to other tasks or the pool.
pub fn complete_task(task: &ProcessingTask, outcome: HandlerOutcome) -> (r: ProcessingResult)
    ensures
        r.task_id@ == task.id@,
        outcome matches HandlerOutcome::Success(v) ==> r.success && r.result@ == v@,
        outcome is Failure ==> !r.success && r.result@.len() == 0,
{
    match outcome {
        HandlerOutcome::Success(v) => ProcessingResult {
            task_id: task.id.clone(),
            result: v,
            success: true,
        },
        HandlerOutcome::Failure => ProcessingResult {
            task_id: task.id.clone(),
            result: Vec::new(),
            success: false,
        },
    }
}

/// The handler for `QuantumSimulation` tasks: run the fixed demonstration
/// circuit (two qubits, an X gate on qubit 0, 100 measurement shots) and
/// return the measured count.
///
/// The circuit is fully determined: the state after the X gate is the basis
/// state `|10..>`, so every shot lands there and the output is exactly
/// `[100]`.
pub fn run_quantum_simulation(task: &ProcessingTask, rng: &mut rand::rngs::StdRng) -> (r:
    ProcessingResult)
    ensures
        r.task_id@ == task.id@,
        r.success,
        r.result@ == seq![100i64],
{
    let mut engine: QuantumEngine = match QuantumEngine::new(2) {
        Ok(e) => e,
        Err(_) => {
            proof {
                assert(false);
            }
            QuantumEngine {
                state: crate::state::QuantumState { amplitudes: Vec::new(), n_qubits: 2 },
                gates_applied: Vec::new(),
            }
        },
    };
    let ghost s0 = basis_state(vstd::arithmetic::power2::pow2(2), 0);
    let x: Gate = Gate::pauli_x();
    proof {
        vstd::arithmetic::power2::lemma2_to64();
        let t = crate::gate::transformed(crate::gate::pauli_x_model(), s0, 2);
        assert forall|i: int| 0 <= i < 4 implies t[i] == basis_state(4, 2)[i] by {
            lemma_x_gate_swaps(s0, 2, i);
        }
        assert(t =~= basis_state(4, 2));
        crate::state::lemma_norm_basis(4, 2);
    }
    let applied = engine.apply_gate(&x, 0);
    proof {
        assert(applied is Ok);
        assert(engine.state@ == basis_state(4, 2));
    }
    let hist: Vec<(String, usize)> = match engine.measure_with_rng(100, rng) {
        Ok(h) => h,
        Err(_) => {
            proof {
                assert(false);
            }
            Vec::new()
        },
    };
    proof {
        assert(hist_view(hist@) == seq![(bitstring(2, 2), 100int)]);
        assert(hist@.len() == 1);
    }
    let count: usize = hist[0].1;
    let mut out: Vec<i64> = Vec::new();
    out.push(count as i64);
    proof {
        assert(out@ =~= seq![100i64]);
    }
    ProcessingResult { task_id: task.id.clone(), result: out, success: true }
}

} // verus!
