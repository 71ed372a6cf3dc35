use vstd::prelude::*;
use crate::item::WorkItem;

verus! {

/// What publishing a batch did.
pub enum SendResult {
    /// The batch was enqueued.
    Sent,
    /// The queue is at capacity: backpressure. The producer must suspend and
    /// try the same batch again; it is handed back untouched.
    Full(Vec<WorkItem>),
    /// The queue was closed; the batch is handed back.
    Closed(Vec<WorkItem>),
}

/// What asking for a batch did.
pub enum RecvResult {
    /// The oldest queued batch, removed from the queue.
    Received(Vec<WorkItem>),
    /// Nothing is queued but the producer may still publish: the worker must
    /// suspend and ask again.
    Empty,
    /// Nothing is queued and no more batches will arrive: the worker exits.
    Closed,
}

/// The fixed-capacity batch queue between the producer and the worker pool.
/// It never holds more batches than its capacity, so a producer that honours
/// `Full` results cannot outpace the workers by an unbounded buffer.
pub struct BoundedQueue {
    pub batches: Vec<Vec<WorkItem>>,
    pub capacity: usize,
    pub closed: bool,
}

impl BoundedQueue {
    /// The queue never exceeds its fixed capacity.
    pub open spec fn wf(&self) -> bool {
        &&& self.capacity >= 1
        &&& self.batches@.len() <= self.capacity
    }

    pub fn new(capacity: usize) -> (r: BoundedQueue)
        requires
            capacity >= 1,
        ensures
            r.wf(),
            r.capacity == capacity,
            r.batches@.len() == 0,
            !r.closed,
    {
        BoundedQueue { batches: Vec::new(), capacity, closed: false }
    }

    /// How many batches are queued.
    pub fn len(&self) -> (n: usize)
        ensures
            n == self.batches@.len(),
    {
        self.batches.len()
    }

    /// Publish a batch: enqueued only when the queue is open and below
    /// capacity; otherwise the batch comes back and the queue is unchanged.
    pub fn try_send(&mut self, batch: Vec<WorkItem>) -> (r: SendResult)
        requires
            old(self).wf(),
        ensures
            final(self).wf(),
            final(self).capacity == old(self).capacity,
            final(self).closed == old(self).closed,
            match r {
                SendResult::Sent => !old(self).closed
                    && old(self).batches@.len() < old(self).capacity
                    && final(self).batches@ == old(self).batches@.push(batch),
                SendResult::Full(b) => !old(self).closed
                    && old(self).batches@.len() == old(self).capacity
                    && b == batch && *final(self) == *old(self),
                SendResult::Closed(b) => old(self).closed && b == batch
                    && *final(self) == *old(self),
            },
    {
        if self.closed {
            SendResult::Closed(batch)
        } else if self.batches.len() == self.capacity {
            SendResult::Full(batch)
        } else {
            self.batches.push(batch);
            SendResult::Sent
        }
    }

    /// Ask for work: the oldest batch when one is queued; otherwise whether
    /// the worker must suspend (open) or exit (closed).
    pub fn try_recv(&mut self) -> (r: RecvResult)
        requires
            old(self).wf(),
        ensures
            final(self).wf(),
            final(self).capacity == old(self).capacity,
            final(self).closed == old(self).closed,
            match r {
                RecvResult::Received(b) => old(self).batches@.len() > 0
                    && b == old(self).batches@[0]
                    && final(self).batches@ == old(self).batches@.skip(1),
                RecvResult::Empty => old(self).batches@.len() == 0 && !old(self).closed
                    && *final(self) == *old(self),
                RecvResult::Closed => old(self).batches@.len() == 0 && old(self).closed
                    && *final(self) == *old(self),
            },
    {
        if self.batches.len() > 0 {
            let b = self.batches.remove(0);
            proof {
                assert(self.batches@ =~= old(self).batches@.skip(1));
            }
            RecvResult::Received(b)
        } else if self.closed {
            RecvResult::Closed
        } else {
            RecvResult::Empty
        }
    }

    /// The producer closes the queue after its last batch: the signal that no
    /// more batches will arrive. Queued batches stay to be drained.
    pub fn close(&mut self)
        requires
            old(self).wf(),
        ensures
            final(self).wf(),
            final(self).closed,
            final(self).capacity == old(self).capacity,
            final(self).batches@ == old(self).batches@,
    {
        self.closed = true;
    }
}

} // verus!
