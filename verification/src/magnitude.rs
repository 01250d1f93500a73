//! Magnitudes of quantities, as the library carries them.

use vstd::prelude::*;

verus! {

/// The magnitude of a quantity, held as the 64 bits of its IEEE 754
/// double-precision encoding. The library stores magnitudes and hands them
/// on; it never computes with them, so every bit pattern is a magnitude.
#[derive(Clone, Copy, Debug, PartialEq, Eq, Structural)]
pub struct Magnitude {
    bits: u64,
}

impl View for Magnitude {
    type V = u64;

    closed spec fn view(&self) -> u64 {
        self.bits
    }
}

impl Magnitude {
    /// The bit pattern of the number one.
    pub const ONE_BITS: u64 = 0x3ff0_0000_0000_0000;

    /// The magnitude with the encoding `bits`.
    pub fn from_bits(bits: u64) -> (m: Magnitude)
        ensures
            m@ == bits,
    {
        Magnitude { bits }
    }

    /// The encoding of this magnitude.
    pub fn to_bits(&self) -> (bits: u64)
        ensures
            bits == self@,
    {
        self.bits
    }

    /// The magnitude one.
    pub closed spec fn unity() -> Magnitude {
        Magnitude { bits: Magnitude::ONE_BITS }
    }

    /// The magnitude one.
    pub fn one() -> (m: Magnitude)
        ensures
            m == Magnitude::unity(),
            m@ == Magnitude::ONE_BITS,
    {
        Magnitude { bits: Magnitude::ONE_BITS }
    }
}

} // verus!
