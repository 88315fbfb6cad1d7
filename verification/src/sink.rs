//! The result sink: collects one `ProcessingResult` per completed task,
//! queryable by arrival order or by task id.

use vstd::prelude::*;
use crate::tasks::ProcessingResult;

verus! {

/// Collected results, in completion order.
pub struct ResultSink {
    pub results: Vec<ProcessingResult>,
}

impl ResultSink {
    pub fn new() -> (s: ResultSink)
        ensures
            s.results@ == Seq::<ProcessingResult>::empty(),
    {
        ResultSink { results: Vec::new() }
    }

    /// Record one result.
    pub fn publish(&mut self, r: ProcessingResult)
        ensures
            final(self).results@ == old(self).results@.push(r),
    {
        self.results.push(r);
    }

    /// Take the oldest collected result, if any.
    pub fn pop_next(&mut self) -> (r: Option<ProcessingResult>)
        ensures
            old(self).results@.len() == 0 ==> r is None && final(self).results@ == old(
                self,
            ).results@,
            old(self).results@.len() > 0 ==> {
                &&& r == Some(old(self).results@[0])
                &&& final(self).results@ == old(self).results@.remove(0)
            },
    {
        if self.results.len() == 0 {
            None
        } else {
            Some(self.results.remove(0))
        }
    }

    /// Remove and return the first result whose `task_id` equals `id`.
    pub fn take_result(&mut self, id: &String) -> (r: Option<ProcessingResult>)
        ensures
            r is None ==> {
                &&& forall|j: int| 0 <= j < old(self).results@.len()
                    ==> (#[trigger] old(self).results@[j]).task_id@ != id@
                &&& final(self).results@ == old(self).results@
            },
            r matches Some(v) ==> exists|j: int| {
                &&& 0 <= j < old(self).results@.len()
                &&& v == old(self).results@[j]
                &&& v.task_id@ == id@
                &&& (forall|j2: int| 0 <= j2 < j
                    ==> (#[trigger] old(self).results@[j2]).task_id@ != id@)
                &&& final(self).results@ == old(self).results@.remove(j)
            },
    {
        let n: usize = self.results.len();
        let mut i: usize = 0;
        while i < n
            invariant
                n == self.results@.len(),
                self == old(self),
                i <= n,
                forall|j: int| 0 <= j < i
                    ==> (#[trigger] self.results@[j]).task_id@ != id@,
            decreases n - i,
        {
            if self.results[i].task_id == *id {
                let v = self.results.remove(i);
                return Some(v);
            }
            i = i + 1;
        }
        None
    }

    /// Take every collected result, leaving the sink empty.
    pub fn drain_all(&mut self) -> (r: Vec<ProcessingResult>)
        ensures
            r@ == old(self).results@,
            final(self).results@ == Seq::<ProcessingResult>::empty(),
    {
        let mut out: Vec<ProcessingResult> = Vec::new();
        core::mem::swap(&mut out, &mut self.results);
        out
    }

    pub fn len(&self) -> (n: usize)
        ensures
            n == self.results@.len(),
    {
        self.results.len()
    }
}

} // verus!
