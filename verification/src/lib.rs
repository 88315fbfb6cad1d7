//! A verified quantum state-vector simulator with a task-dispatch pipeline.
//!
//! Amplitudes are complex numbers in fixed-point representation: the real and
//! imaginary parts are signed integers scaled by `SCALE`, so that the value
//! `1.0` is stored as `SCALE`. All gate arithmetic, probability computation
//! and measurement sampling are verified over this integer model.

pub mod complex;
pub mod state;
pub mod gate;
pub mod text;
pub mod engine;
pub mod rng;
pub mod measure;
pub mod laws;
pub mod tasks;
pub mod queue;
pub mod sink;
pub mod processor;

pub use complex::Complex;
pub use state::QuantumState;
pub use engine::{QuantumEngine, QuantumError};
pub use gate::Gate;
pub use tasks::{ProcessingTask, ProcessingResult, TaskType, ProcessingError, HandlerOutcome};
pub use queue::TaskQueue;
pub use sink::ResultSink;
pub use processor::ConcurrentProcessor;
