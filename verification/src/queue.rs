//! The pending-task queue: first in, first out, with a close flag.
//!
//! Submission appends at the back and fails exactly when the queue has been
//! closed; workers take from the front, so tasks are dispatched in
//! submission order.

use vstd::prelude::*;
use crate::tasks::{ProcessingTask, ProcessingError};

verus! {

/// A FIFO queue of pending tasks.
pub struct TaskQueue {
    pub tasks: Vec<ProcessingTask>,
    pub closed: bool,
}

impl TaskQueue {
    pub fn new() -> (q: TaskQueue)
        ensures
            q.tasks@ == Seq::<ProcessingTask>::empty(),
            !q.closed,
    {
        TaskQueue { tasks: Vec::new(), closed: false }
    }

    /// Enqueue a task at the back; fails with `QueueClosed` (and changes
    /// nothing) if and only if the queue has been closed.
    pub fn submit(&mut self, task: ProcessingTask) -> (r: Result<(), ProcessingError>)
        ensures
            old(self).closed ==> {
                &&& r == Err::<(), ProcessingError>(ProcessingError::QueueClosed)
                &&& final(self).tasks@ == old(self).tasks@
                &&& final(self).closed
            },
            !old(self).closed ==> {
                &&& r == Ok::<(), ProcessingError>(())
                &&& final(self).tasks@ == old(self).tasks@.push(task)
                &&& !final(self).closed
            },
    {
        if self.closed {
            Err(ProcessingError::QueueClosed)
        } else {
            self.tasks.push(task);
            Ok(())
        }
    }

    /// Close the queue: no further submissions are accepted; queued tasks
    /// stay to be drained.
    pub fn close(&mut self)
        ensures
            final(self).closed,
            final(self).tasks@ == old(self).tasks@,
    {
        self.closed = true;
    }

    /// Take the oldest pending task, if any.
    pub fn take_next(&mut self) -> (r: Option<ProcessingTask>)
        ensures
            final(self).closed == old(self).closed,
            old(self).tasks@.len() == 0 ==> r is None && final(self).tasks@ == old(self).tasks@,
            old(self).tasks@.len() > 0 ==> {
                &&& r == Some(old(self).tasks@[0])
                &&& final(self).tasks@ == old(self).tasks@.remove(0)
            },
    {
        if self.tasks.len() == 0 {
            None
        } else {
            Some(self.tasks.remove(0))
        }
    }

    pub fn len(&self) -> (n: usize)
        ensures
            n == self.tasks@.len(),
    {
        self.tasks.len()
    }

    pub fn is_closed(&self) -> (b: bool)
        ensures
            b == self.closed,
    {
        self.closed
    }
}

} // verus!
