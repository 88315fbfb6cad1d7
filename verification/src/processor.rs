//! The dispatch pipeline: a fixed pool size, one shared FIFO task queue and
//! one result sink.
//!
//! The concurrency itself (worker threads blocking on the queue) lives with
//! the embedding program; this module is the pipeline's verified state
//! machine. A worker step is: `next_task`, run the handler for the task's
//! kind (`run_quantum_simulation` inside the library, or an external
//! collaborator's outcome through `complete_task`), then `publish_result`.

use vstd::prelude::*;
use crate::queue::TaskQueue;
use crate::sink::ResultSink;
use crate::tasks::{ProcessingError, ProcessingResult, ProcessingTask};

verus! {

/// A pool of `n_workers` execution units sharing one task queue and one
/// result sink.
pub struct ConcurrentProcessor {
    pub queue: TaskQueue,
    pub sink: ResultSink,
    pub n_workers: usize,
}

impl ConcurrentProcessor {
    /// A fresh pipeline with `n_workers` workers, an open empty queue and an
    /// empty sink.
    pub fn new(n_workers: usize) -> (p: ConcurrentProcessor)
        requires
            n_workers >= 1,
        ensures
            p.n_workers == n_workers,
            p.queue.tasks@ == Seq::<ProcessingTask>::empty(),
            !p.queue.closed,
            p.sink.results@ == Seq::<ProcessingResult>::empty(),
    {
        ConcurrentProcessor { queue: TaskQueue::new(), sink: ResultSink::new(), n_workers }
    }

    /// Submit a task: appended at the back of the queue, or refused with
    /// `QueueClosed` after shutdown — in which case nothing changes and no
    /// result is ever produced for it.
    pub fn submit_task(&mut self, task: ProcessingTask) -> (r: Result<(), ProcessingError>)
        ensures
            final(self).n_workers == old(self).n_workers,
            final(self).sink.results@ == old(self).sink.results@,
            old(self).queue.closed ==> {
                &&& r == Err::<(), ProcessingError>(ProcessingError::QueueClosed)
                &&& final(self).queue.tasks@ == old(self).queue.tasks@
                &&& final(self).queue.closed
            },
            !old(self).queue.closed ==> {
                &&& r == Ok::<(), ProcessingError>(())
                &&& final(self).queue.tasks@ == old(self).queue.tasks@.push(task)
                &&& !final(self).queue.closed
            },
    {
        self.queue.submit(task)
    }

    /// Close the queue: later submissions fail; queued tasks are drained.
    pub fn close(&mut self)
        ensures
            final(self).n_workers == old(self).n_workers,
            final(self).sink.results@ == old(self).sink.results@,
            final(self).queue.closed,
            final(self).queue.tasks@ == old(self).queue.tasks@,
    {
        self.queue.close()
    }

    /// A worker takes the oldest pending task.
    pub fn next_task(&mut self) -> (r: Option<ProcessingTask>)
        ensures
            final(self).n_workers == old(self).n_workers,
            final(self).sink.results@ == old(self).sink.results@,
            final(self).queue.closed == old(self).queue.closed,
            old(self).queue.tasks@.len() == 0 ==> r is None && final(self).queue.tasks@ == old(
                self,
            ).queue.tasks@,
            old(self).queue.tasks@.len() > 0 ==> {
                &&& r == Some(old(self).queue.tasks@[0])
                &&& final(self).queue.tasks@ == old(self).queue.tasks@.remove(0)
            },
    {
        self.queue.take_next()
    }

    /// A worker publishes the result of a completed task.
    pub fn publish_result(&mut self, result: ProcessingResult)
        ensures
            final(self).n_workers == old(self).n_workers,
            final(self).queue.tasks@ == old(self).queue.tasks@,
            final(self).queue.closed == old(self).queue.closed,
            final(self).sink.results@ == old(self).sink.results@.push(result),
    {
        self.sink.publish(result)
    }

    /// Take every collected result.
    pub fn drain_results(&mut self) -> (r: Vec<ProcessingResult>)
        ensures
            final(self).n_workers == old(self).n_workers,
            final(self).queue.tasks@ == old(self).queue.tasks@,
            final(self).queue.closed == old(self).queue.closed,
            r@ == old(self).sink.results@,
            final(self).sink.results@ == Seq::<ProcessingResult>::empty(),
    {
        self.sink.drain_all()
    }

    pub fn worker_count(&self) -> (n: usize)
        ensures
            n == self.n_workers,
    {
        self.n_workers
    }
}

/// Whether some collected result carries the given id.
pub open spec fn has_result_for(results: Seq<ProcessingResult>, id: Seq<char>) -> bool {
    exists|j: int| 0 <= j < results.len() && (#[trigger] results[j]).task_id@ == id
}

/// Law: if every submitted task produces exactly one result carrying its id
/// (as every handler path does), then `K` tasks with distinct ids yield
/// exactly `K` results, each submitted id appearing exactly once — whatever
/// the number of workers and whatever order the results arrive in.
pub proof fn lemma_one_result_per_task(
    tasks: Seq<ProcessingTask>,
    results: Seq<ProcessingResult>,
)
    requires
        results.len() == tasks.len(),
        forall|i: int| 0 <= i < tasks.len()
            ==> (#[trigger] results[i]).task_id@ == tasks[i].id@,
        forall|i: int, j: int| 0 <= i < j < tasks.len()
            ==> (#[trigger] tasks[i].id@) != (#[trigger] tasks[j].id@),
    ensures
        forall|i: int, j: int| 0 <= i < j < results.len()
            ==> (#[trigger] results[i]).task_id@ != (#[trigger] results[j]).task_id@,
        forall|i: int| 0 <= i < tasks.len() ==> has_result_for(results, (#[trigger] tasks[i]).id@),
{
    assert forall|i: int| 0 <= i < tasks.len() implies has_result_for(
        results,
        (#[trigger] tasks[i]).id@,
    ) by {
        assert(0 <= i < results.len() && results[i].task_id@ == tasks[i].id@);
    }
}

} // verus!
