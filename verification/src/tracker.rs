//! A bounded counter for reporting progress of a batch of work.

use vstd::prelude::*;

verus! {

/// Counts completed units of work, clamped to the range
/// `[min_val, max_val]`.  The counter never leaves that range, so it
/// cannot overflow.
pub struct ProgressTracker {
    pub counter: usize,
    pub min_val: usize,
    pub max_val: usize,
}

impl ProgressTracker {
    /// True when every unit of work has been counted.
    pub open spec fn spec_is_done(self) -> bool {
        self.counter == self.max_val
    }

    /// Creates a tracker whose counter starts at the lower bound.
    pub fn new(min_val: usize, max_val: usize) -> (r: Self)
        ensures
            r.counter == min_val,
            r.min_val == min_val,
            r.max_val == max_val,
    {
        ProgressTracker { counter: min_val, min_val, max_val }
    }

    /// Sets the counter to `new_v` if that lies within the bounds;
    /// otherwise leaves it unchanged.
    pub fn update(&mut self, new_v: usize)
        ensures
            final(self).counter == if old(self).min_val <= new_v <= old(self).max_val {
                new_v
            } else {
                old(self).counter
            },
            final(self).min_val == old(self).min_val,
            final(self).max_val == old(self).max_val,
    {
        if new_v >= self.min_val && new_v <= self.max_val {
            self.counter = new_v;
        }
    }

    /// Raises the counter by one, saturating at the upper bound.
    pub fn increment(&mut self)
        ensures
            final(self).counter == if old(self).counter < old(self).max_val {
                old(self).counter + 1
            } else {
                old(self).counter as int
            },
            final(self).min_val == old(self).min_val,
            final(self).max_val == old(self).max_val,
    {
        if self.counter < self.max_val {
            self.counter = self.counter + 1;
        }
    }

    /// Lowers the counter by one, saturating at the lower bound.
    pub fn decrement(&mut self)
        ensures
            final(self).counter == if old(self).counter > old(self).min_val {
                old(self).counter - 1
            } else {
                old(self).counter as int
            },
            final(self).min_val == old(self).min_val,
            final(self).max_val == old(self).max_val,
    {
        if self.counter > self.min_val {
            self.counter = self.counter - 1;
        }
    }

    /// True when the counter has reached the upper bound.
    pub fn is_done(&self) -> (r: bool)
        ensures
            r == self.spec_is_done(),
    {
        self.max_val == self.counter
    }
}

} // verus!
