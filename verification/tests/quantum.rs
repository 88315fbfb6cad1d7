use quantum_pool::complex::{Complex, SCALE};
use quantum_pool::engine::{QuantumEngine, QuantumError};
use quantum_pool::gate::Gate;
use quantum_pool::measure::measure_state;
use quantum_pool::state::QuantumState;
use rand::rngs::StdRng;
use rand::SeedableRng;

#[test]
fn test_quantum_engine_creation() {
    let engine = QuantumEngine::new(2).unwrap();
    assert_eq!(engine.state.n_qubits, 2);
    assert_eq!(engine.state.amplitudes.len(), 4);
    assert_eq!(engine.state.amplitudes[0], Complex::new(SCALE, 0));
}

#[test]
fn test_memory_safety() {
    let _engine = QuantumEngine::new(3);
    assert!(true);
}

#[test]
fn fresh_engine_is_zero_basis_state_with_unit_norm() {
    for n in 1..=5usize {
        let engine = QuantumEngine::new(n).unwrap();
        assert_eq!(engine.state.amplitudes.len(), 1usize << n);
        assert_eq!(engine.state.amplitudes[0], Complex::new(SCALE, 0));
        for i in 1..engine.state.amplitudes.len() {
            assert_eq!(engine.state.amplitudes[i], Complex::new(0, 0));
        }
        let total: i128 = engine
            .state
            .amplitudes
            .iter()
            .map(|c| (c.re as i128) * (c.re as i128) + (c.im as i128) * (c.im as i128))
            .sum();
        assert_eq!(total, (SCALE as i128) * (SCALE as i128));
    }
}

#[test]
fn engine_creation_rejects_bad_qubit_counts() {
    assert_eq!(QuantumEngine::new(0).unwrap_err(), QuantumError::InvalidQubitCount);
    assert_eq!(QuantumEngine::new(25).unwrap_err(), QuantumError::CapacityExceeded);
}

#[test]
fn identity_gate_leaves_state_unchanged() {
    let mut engine = QuantumEngine::new(2).unwrap();
    engine.apply_gate(&Gate::pauli_x(), 1).unwrap();
    let before = engine.state.amplitudes.clone();
    for q in 0..2usize {
        engine.apply_gate(&Gate::identity(), q).unwrap();
        assert_eq!(engine.state.amplitudes, before);
    }
}

#[test]
fn x_gate_twice_restores_state() {
    let mut engine = QuantumEngine::new(2).unwrap();
    let before = engine.state.amplitudes.clone();
    let x = Gate::pauli_x();
    engine.apply_gate(&x, 0).unwrap();
    assert_ne!(engine.state.amplitudes, before);
    engine.apply_gate(&x, 0).unwrap();
    assert_eq!(engine.state.amplitudes, before);
    // The same round trip on the other qubit.
    engine.apply_gate(&x, 1).unwrap();
    engine.apply_gate(&x, 1).unwrap();
    assert_eq!(engine.state.amplitudes, before);
}

#[test]
fn out_of_range_qubit_fails_and_leaves_state() {
    let mut engine = QuantumEngine::new(2).unwrap();
    let before = engine.state.amplitudes.clone();
    let r = engine.apply_gate(&Gate::pauli_x(), 2);
    assert_eq!(r.unwrap_err(), QuantumError::IndexOutOfRange);
    assert_eq!(engine.state.amplitudes, before);
    assert!(engine.history().is_empty());
}

#[test]
fn non_unitary_gate_is_rejected_and_leaves_state() {
    let mut engine = QuantumEngine::new(1).unwrap();
    let before = engine.state.amplitudes.clone();
    let one = Complex::new(SCALE, 0);
    let skew = Gate::new(one, one, one, one);
    let r = engine.apply_gate(&skew, 0);
    assert_eq!(r.unwrap_err(), QuantumError::UnnormalizedState);
    assert_eq!(engine.state.amplitudes, before);
}

#[test]
fn history_records_each_gate_in_order() {
    let mut engine = QuantumEngine::new(3).unwrap();
    engine.apply_gate(&Gate::pauli_x(), 0).unwrap();
    engine.apply_gate(&Gate::identity(), 2).unwrap();
    let history = engine.history();
    assert_eq!(history.len(), 2);
    assert_eq!(history[0], "Gate on qubit 0");
    assert_eq!(history[1], "Gate on qubit 2");
}

#[test]
fn measuring_zero_state_gives_only_the_zero_bitstring() {
    let engine = QuantumEngine::new(2).unwrap();
    let mut rng = StdRng::seed_from_u64(7);
    let hist = engine.measure_with_rng(1000, &mut rng).unwrap();
    assert_eq!(hist.len(), 1);
    assert_eq!(hist[0].0, "00");
    assert_eq!(hist[0].1, 1000);
}

#[test]
fn measuring_flipped_qubit_gives_its_bitstring() {
    // X on qubit 1 of a 3-qubit register: |000> becomes |010>.
    let mut engine = QuantumEngine::new(3).unwrap();
    engine.apply_gate(&Gate::pauli_x(), 1).unwrap();
    let mut rng = StdRng::seed_from_u64(11);
    let hist = engine.measure_with_rng(50, &mut rng).unwrap();
    assert_eq!(hist, vec![("010".to_string(), 50)]);
}

#[test]
fn measurement_is_deterministic_under_a_seed() {
    let mut engine = QuantumEngine::new(1).unwrap();
    // An equal superposition of |0> and |1>, within the norm tolerance.
    engine.state.amplitudes = vec![Complex::new(11863283, 0), Complex::new(11863283, 0)];
    let mut rng1 = StdRng::seed_from_u64(99);
    let mut rng2 = StdRng::seed_from_u64(99);
    let h1 = engine.measure_with_rng(200, &mut rng1).unwrap();
    let h2 = engine.measure_with_rng(200, &mut rng2).unwrap();
    assert_eq!(h1, h2);
}

#[test]
fn equal_superposition_measures_roughly_half_and_half() {
    let state = QuantumState {
        amplitudes: vec![Complex::new(11863283, 0), Complex::new(11863283, 0)],
        n_qubits: 1,
    };
    let mut rng = StdRng::seed_from_u64(12345);
    let hist = measure_state(&state, 10000, &mut rng).unwrap();
    assert_eq!(hist.len(), 2);
    assert_eq!(hist[0].0, "0");
    assert_eq!(hist[1].0, "1");
    let c0 = hist[0].1;
    let c1 = hist[1].1;
    assert_eq!(c0 + c1, 10000);
    assert!(c0 > 4000 && c0 < 6000, "count for \"0\" was {}", c0);
    assert!(c1 > 4000 && c1 < 6000, "count for \"1\" was {}", c1);
}

#[test]
fn measuring_an_unnormalized_state_fails() {
    let state = QuantumState {
        amplitudes: vec![Complex::new(1, 0), Complex::new(0, 0)],
        n_qubits: 1,
    };
    let mut rng = StdRng::seed_from_u64(3);
    let r = measure_state(&state, 10, &mut rng);
    assert_eq!(r.unwrap_err(), QuantumError::UnnormalizedState);
}
