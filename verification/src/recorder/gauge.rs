//! The gauge cell.
use vstd::prelude::*;

verus! {

/// A gauge cell. It holds the gauge's value as the bit pattern of a binary64
/// number, so that the registry stores and returns it exactly. Arithmetic on
/// the value is left to the caller, who reads the bits, computes, and stores
/// the result.
#[derive(Debug, Clone, Copy)]
pub struct SimpleGauge {
    bits: u64,
}

impl View for SimpleGauge {
    type V = u64;

    closed spec fn view(&self) -> u64 {
        self.bits
    }
}

impl SimpleGauge {
    /// The bit pattern of the current value.
    pub fn value(&self) -> (bits: u64)
        ensures
            bits == self@,
    {
        self.bits
    }

    /// Replaces the value by the one with the bit pattern `bits`.
    pub fn set(&mut self, bits: u64)
        ensures
            final(self)@ == bits,
    {
        self.bits = bits;
    }
}

impl Default for SimpleGauge {
    /// A gauge whose bits are all zero: the value 0.0.
    fn default() -> (r: Self)
        ensures
            r@ == 0,
    {
        SimpleGauge { bits: 0 }
    }
}

} // verus!
