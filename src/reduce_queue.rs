//! The worker's queue of reduce operations: one per intermediate key, taken
//! one at a time and run through the payload by the caller.
use vstd::prelude::*;

verus! {

/// The input of the reduce payload for a single intermediate key.
#[derive(Clone, Debug, PartialEq, Eq)]
pub struct ReduceOperation {
    pub intermediate_key: String,
    pub input: String,
}

/// Reduce operations waiting to run; the last one queued runs first.
#[derive(Debug)]
pub struct ReduceOperationQueue {
    queue: Vec<ReduceOperation>,
}

impl ReduceOperationQueue {
    pub closed spec fn spec_queue(&self) -> Seq<ReduceOperation> {
        self.queue@
    }

    pub fn new() -> (r: ReduceOperationQueue)
        ensures
            r.spec_queue().len() == 0,
    {
        ReduceOperationQueue { queue: Vec::new() }
    }

    /// Takes out the next operation to perform, if any: the last one queued.
    pub fn perform_next_reduce_operation(&mut self) -> (r: Option<ReduceOperation>)
        ensures
            old(self).spec_queue().len() == 0 ==> r.is_none() && final(self).spec_queue()
                == old(self).spec_queue(),
            old(self).spec_queue().len() > 0 ==> r == Some(old(self).spec_queue().last())
                && final(self).spec_queue() == old(self).spec_queue().drop_last(),
    {
        self.queue.pop()
    }

    pub fn is_queue_empty(&self) -> (r: bool)
        ensures
            r == (self.spec_queue().len() == 0),
    {
        self.queue.len() == 0
    }

    /// Replaces the queued operations with `new_queue`.
    pub fn set_queue(&mut self, new_queue: Vec<ReduceOperation>)
        ensures
            final(self).spec_queue() == new_queue@,
    {
        self.queue = new_queue;
    }
}

} // verus!
