//! Floating-point settings, carried through as the bits they are stored in.

use vstd::prelude::*;

verus! {

/// A double-precision number, as its IEEE 754 bits.
#[derive(Debug, Clone, Copy, PartialEq, Eq, Structural)]
pub struct Double {
    pub bits: u64,
}

impl Double {
    /// Whether the number is above zero and at most one: the bits of the numbers
    /// from zero up are in the order of the numbers.
    pub open spec fn fraction(self) -> bool {
        0 < self.bits <= 0x3ff0_0000_0000_0000
    }

    /// Whether the number is above zero and at most one.
    pub fn is_fraction(&self) -> (yes: bool)
        ensures
            yes == self.fraction(),
            yes <==> 0 < self.bits <= 0x3ff0_0000_0000_0000,
    {
        0 < self.bits && self.bits <= 0x3ff0_0000_0000_0000
    }
}

/// A single-precision number, as its IEEE 754 bits.
#[derive(Debug, Clone, Copy, PartialEq, Eq, Structural)]
pub struct Single {
    pub bits: u32,
}

} // verus!
