use quantum_pool::engine::QuantumEngine;
use quantum_pool::processor::ConcurrentProcessor;
use quantum_pool::tasks::{
    complete_task, run_quantum_simulation, HandlerOutcome, ProcessingError, ProcessingResult,
    ProcessingTask, TaskType,
};
use rand::rngs::StdRng;
use rand::SeedableRng;
use std::collections::HashSet;
use std::sync::{Arc, Mutex};

fn task(id: &str, data: Vec<i64>, task_type: TaskType) -> ProcessingTask {
    ProcessingTask { id: id.to_string(), data, task_type }
}

/// Run one sequential worker pass: drain the queue, handle each task, and
/// publish its result. Inference doubles each payload entry; optimization
/// reports a fixed answer — stand-ins for the external collaborators.
fn drain_with_workers(p: &mut ConcurrentProcessor, rng: &mut StdRng) {
    while let Some(t) = p.next_task() {
        let result: ProcessingResult = match t.task_type {
            TaskType::QuantumSimulation => run_quantum_simulation(&t, rng),
            TaskType::NeuralNetworkInference => {
                let doubled: Vec<i64> = t.data.iter().map(|x| x * 2).collect();
                complete_task(&t, HandlerOutcome::Success(doubled))
            }
            TaskType::Optimization => complete_task(&t, HandlerOutcome::Success(vec![42])),
        };
        p.publish_result(result);
    }
}

#[test]
fn k_tasks_yield_k_results_with_unique_ids() {
    for n_workers in [1usize, 4, 16] {
        let mut p = ConcurrentProcessor::new(n_workers);
        let kinds = [
            TaskType::QuantumSimulation,
            TaskType::NeuralNetworkInference,
            TaskType::Optimization,
        ];
        let k = 9;
        for i in 0..k {
            let t = task(&format!("task-{}", i), vec![i as i64], kinds[i % 3]);
            p.submit_task(t).unwrap();
        }
        let mut rng = StdRng::seed_from_u64(1);
        drain_with_workers(&mut p, &mut rng);
        let results = p.drain_results();
        assert_eq!(results.len(), k);
        let ids: HashSet<String> = results.iter().map(|r| r.task_id.clone()).collect();
        assert_eq!(ids.len(), k);
        for i in 0..k {
            assert!(ids.contains(&format!("task-{}", i)));
        }
    }
}

#[test]
fn failing_handler_yields_failure_without_harming_others() {
    let mut p = ConcurrentProcessor::new(2);
    p.submit_task(task("bad-1", vec![], TaskType::NeuralNetworkInference)).unwrap();
    p.submit_task(task("good", vec![3], TaskType::NeuralNetworkInference)).unwrap();
    p.submit_task(task("bad-2", vec![], TaskType::NeuralNetworkInference)).unwrap();
    // A handler that always fails: every outcome is a caught failure.
    while let Some(t) = p.next_task() {
        let outcome = if t.id.starts_with("bad") {
            HandlerOutcome::Failure
        } else {
            HandlerOutcome::Success(vec![6])
        };
        p.publish_result(complete_task(&t, outcome));
    }
    let results = p.drain_results();
    assert_eq!(results.len(), 3);
    for r in &results {
        if r.task_id.starts_with("bad") {
            assert!(!r.success);
            assert!(r.result.is_empty());
        } else {
            assert!(r.success);
            assert_eq!(r.result, vec![6]);
        }
    }
}

#[test]
fn submission_after_close_fails_and_produces_no_result() {
    let mut p = ConcurrentProcessor::new(1);
    p.submit_task(task("before", vec![], TaskType::Optimization)).unwrap();
    p.close();
    let r = p.submit_task(task("after", vec![], TaskType::Optimization));
    assert_eq!(r.unwrap_err(), ProcessingError::QueueClosed);
    assert!(p.queue.is_closed());
    assert_eq!(p.queue.len(), 1);
    // The closed queue still drains what was already submitted, nothing more.
    let mut rng = StdRng::seed_from_u64(2);
    drain_with_workers(&mut p, &mut rng);
    let results = p.drain_results();
    assert_eq!(results.len(), 1);
    assert_eq!(results[0].task_id, "before");
}

#[test]
fn tasks_are_dispatched_in_submission_order() {
    let mut p = ConcurrentProcessor::new(2);
    for id in ["a", "b", "c"] {
        p.submit_task(task(id, vec![], TaskType::Optimization)).unwrap();
    }
    assert_eq!(p.next_task().unwrap().id, "a");
    assert_eq!(p.next_task().unwrap().id, "b");
    assert_eq!(p.next_task().unwrap().id, "c");
    assert!(p.next_task().is_none());
}

#[test]
fn results_can_be_taken_by_task_id() {
    let mut p = ConcurrentProcessor::new(1);
    p.publish_result(ProcessingResult {
        task_id: "x".to_string(),
        result: vec![1],
        success: true,
    });
    p.publish_result(ProcessingResult {
        task_id: "y".to_string(),
        result: vec![2],
        success: true,
    });
    let taken = p.sink.take_result(&"y".to_string()).unwrap();
    assert_eq!(taken.result, vec![2]);
    assert!(p.sink.take_result(&"y".to_string()).is_none());
    let first = p.sink.pop_next().unwrap();
    assert_eq!(first.task_id, "x");
    assert_eq!(p.sink.len(), 0);
}

#[test]
fn quantum_simulation_task_reports_the_measured_count() {
    let t = task("q-demo", vec![], TaskType::QuantumSimulation);
    let mut rng = StdRng::seed_from_u64(5);
    let r = run_quantum_simulation(&t, &mut rng);
    assert_eq!(r.task_id, "q-demo");
    assert!(r.success);
    assert_eq!(r.result, vec![100]);
}

#[test]
fn complete_task_passes_output_through_and_empties_failures() {
    let t = task("t", vec![9], TaskType::NeuralNetworkInference);
    let ok = complete_task(&t, HandlerOutcome::Success(vec![18, 20]));
    assert_eq!(ok.task_id, "t");
    assert!(ok.success);
    assert_eq!(ok.result, vec![18, 20]);
    let bad = complete_task(&t, HandlerOutcome::Failure);
    assert_eq!(bad.task_id, "t");
    assert!(!bad.success);
    assert!(bad.result.is_empty());
}

#[test]
fn engine_measure_with_fresh_entropy_still_pins_a_pure_state() {
    let engine = QuantumEngine::new(1).unwrap();
    let hist = engine.measure(10).unwrap();
    assert_eq!(hist, vec![("0".to_string(), 10)]);
}

#[test]
fn concurrent_workers_yield_one_result_per_task() {
    let runtime = tokio::runtime::Builder::new_multi_thread()
        .worker_threads(4)
        .build()
        .unwrap();
    runtime.block_on(async {
        let pool = Arc::new(Mutex::new(ConcurrentProcessor::new(4)));
        let k = 24;
        {
            let mut p = pool.lock().unwrap();
            for i in 0..k {
                p.submit_task(task(
                    &format!("ct-{}", i),
                    vec![i as i64],
                    TaskType::NeuralNetworkInference,
                ))
                .unwrap();
            }
            p.close();
        }
        let mut handles = Vec::new();
        for w in 0..4u64 {
            let pool = Arc::clone(&pool);
            handles.push(tokio::spawn(async move {
                loop {
                    let next = pool.lock().unwrap().next_task();
                    let Some(t) = next else {
                        break;
                    };
                    // Odd payloads fail, even ones succeed: failures must not
                    // disturb the other workers' tasks.
                    let outcome = if t.data[0] % 2 == 1 {
                        HandlerOutcome::Failure
                    } else {
                        HandlerOutcome::Success(vec![t.data[0] * 2, w as i64])
                    };
                    let result = complete_task(&t, outcome);
                    pool.lock().unwrap().publish_result(result);
                }
            }));
        }
        for h in handles {
            h.await.unwrap();
        }
        let results = pool.lock().unwrap().drain_results();
        assert_eq!(results.len(), k);
        let ids: HashSet<String> = results.iter().map(|r| r.task_id.clone()).collect();
        assert_eq!(ids.len(), k);
        for r in &results {
            let i: i64 = r.task_id["ct-".len()..].parse().unwrap();
            if i % 2 == 1 {
                assert!(!r.success && r.result.is_empty());
            } else {
                assert!(r.success);
                assert_eq!(r.result[0], i * 2);
            }
        }
    });
}
