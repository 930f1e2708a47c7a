//! The bounded FIFO queues linking the pipeline's stages.
//!
//! Both hops — generators to filter stage, filter stage to host link —
//! run over a queue of fixed capacity. A full queue refuses the offered
//! item and hands it back, so the producer can hold it and retry once the
//! consumer has drained an element: capacity is enforced by making the
//! producer wait, never by dropping or reordering.

use vstd::prelude::*;

verus! {

/// Fixed capacity of every queue in the pipeline.
pub const QUEUE_CAPACITY: usize = 4;

/// A bounded first-in-first-out queue. The front of the queue is the
/// element that has waited longest; its abstract value is the sequence of
/// queued elements, front first.
pub struct BoundedQueue<T> {
    items: Vec<T>,
}

impl<T> View for BoundedQueue<T> {
    type V = Seq<T>;

    closed spec fn view(&self) -> Seq<T> {
        self.items@
    }
}

impl<T> BoundedQueue<T> {
    /// A queue never holds more than its capacity.
    pub open spec fn wf(&self) -> bool {
        self@.len() <= QUEUE_CAPACITY
    }

    /// A fresh, empty queue.
    pub fn new() -> (q: BoundedQueue<T>)
        ensures
            q.wf(),
            q@ == Seq::<T>::empty(),
    {
        BoundedQueue { items: Vec::new() }
    }

    /// How many elements are queued.
    pub fn len(&self) -> (n: usize)
        ensures
            n == self@.len(),
    {
        self.items.len()
    }

    /// Offer one element. A queue below capacity appends it at the back;
    /// a full queue changes nothing and hands the element back for the
    /// producer to retry with.
    pub fn push(&mut self, t: T) -> (r: Result<(), T>)
        requires
            old(self).wf(),
        ensures
            final(self).wf(),
            if old(self)@.len() < QUEUE_CAPACITY {
                r is Ok && final(self)@ == old(self)@.push(t)
            } else {
                r == Result::<(), T>::Err(t) && final(self)@ == old(self)@
            },
    {
        if self.items.len() < QUEUE_CAPACITY {
            self.items.push(t);
            Ok(())
        } else {
            Err(t)
        }
    }

    /// Take the front element, if any: elements leave in exactly the
    /// order they were accepted.
    pub fn pop(&mut self) -> (r: Option<T>)
        requires
            old(self).wf(),
        ensures
            final(self).wf(),
            if old(self)@.len() > 0 {
                r == Some(old(self)@[0]) && final(self)@ == old(self)@.drop_first()
            } else {
                r is None && final(self)@ == old(self)@
            },
    {
        if self.items.len() > 0 {
            Some(self.items.remove(0))
        } else {
            None
        }
    }
}

} // verus!
