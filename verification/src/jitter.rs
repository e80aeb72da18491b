//! Playback pacing buffer: a bounded queue that smooths irregular arrival of
//! values into steady output by bursting everything queued once the bound is
//! exceeded.

use vstd::prelude::*;

verus! {

/// A bounded queue of pending values with a fixed capacity.
///
/// `push_and_drain` enqueues one value at a time; once the occupancy has
/// reached the capacity, the next push first removes and returns everything
/// queued so far as one batch.
pub struct JitterBuffer<T> {
    buffer: Vec<T>,
    capacity: usize,
}

impl<T> JitterBuffer<T> {
    /// The values currently queued, oldest first.
    pub closed spec fn view(&self) -> Seq<T> {
        self.buffer@
    }

    /// The fixed capacity the buffer was created with.
    pub closed spec fn spec_capacity(&self) -> usize {
        self.capacity
    }

    pub fn new(capacity: usize) -> (r: Self)
        ensures
            r@ == Seq::<T>::empty(),
            r.spec_capacity() == capacity,
    {
        Self { buffer: Vec::with_capacity(capacity), capacity }
    }

    /// Enqueues `value`; if the occupancy had already reached the capacity,
    /// first removes and returns the whole queued batch, so that the buffer
    /// afterwards holds `value` alone.
    pub fn push_and_drain(&mut self, value: T) -> (r: Option<Vec<T>>)
        ensures
            final(self).spec_capacity() == old(self).spec_capacity(),
            old(self)@.len() < old(self).spec_capacity() ==> {
                &&& r is None
                &&& final(self)@ == old(self)@.push(value)
            },
            old(self)@.len() >= old(self).spec_capacity() ==> {
                &&& r matches Some(items) && items@ == old(self)@
                &&& final(self)@ == seq![value]
            },
    {
        if self.buffer.len() >= self.capacity {
            let items: Vec<T> = self.buffer.split_off(0);
            self.buffer.push(value);
            assert(self.buffer@ =~= seq![value]);
            Some(items)
        } else {
            self.buffer.push(value);
            None
        }
    }
}

} // verus!
