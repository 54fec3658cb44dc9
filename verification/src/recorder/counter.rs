//! The counter cell.
use crate::model::counter_sum;
use vstd::prelude::*;

verus! {

/// A counter cell: a count that is incremented or set, and wraps at the
/// width of the cell.
#[derive(Debug, Clone, Copy)]
pub struct SimpleCounter {
    value: u64,
}

impl View for SimpleCounter {
    type V = u64;

    closed spec fn view(&self) -> u64 {
        self.value
    }
}

impl SimpleCounter {
    /// The current count.
    pub fn value(&self) -> (v: u64)
        ensures
            v == self@,
    {
        self.value
    }

    /// Adds `value` to the count.
    pub fn increment(&mut self, value: u64)
        ensures
            final(self)@ == counter_sum(old(self)@, value),
    {
        self.value = self.value.wrapping_add(value);
    }

    /// Replaces the count by `value`.
    pub fn absolute(&mut self, value: u64)
        ensures
            final(self)@ == value,
    {
        self.value = value;
    }
}

impl Default for SimpleCounter {
    /// A counter at zero.
    fn default() -> (r: Self)
        ensures
            r@ == 0,
    {
        SimpleCounter { value: 0 }
    }
}

} // verus!
