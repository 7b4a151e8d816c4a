//! Descriptor flags.
use vstd::prelude::*;

verus! {

/// The chain goes on with the descriptor that `next` names.
pub const NEXT: u16 = 1;

/// The device writes the buffer; without it the device reads the buffer.
pub const WRITE: u16 = 2;

/// The buffer holds a table of descriptors.
pub const INDIRECT: u16 = 4;

/// The flags of a descriptor.
#[derive(Debug, Clone, Copy, PartialEq, Eq, Structural)]
pub struct DescFlags {
    pub bits: u16,
}

impl DescFlags {
    /// Whether the chain goes on behind a descriptor with these flags.
    pub open spec fn continues(bits: u16) -> bool {
        bits & NEXT == NEXT
    }

    /// The flags of one descriptor of a chain.
    pub open spec fn of(writable: bool, last: bool) -> u16 {
        match (writable, last) {
            (false, false) => NEXT,
            (false, true) => 0u16,
            (true, false) => 3u16,
            (true, true) => WRITE,
        }
    }

    /// Flags with exactly these bits.
    pub fn new(bits: u16) -> (flags: Self)
        ensures
            flags.bits == bits,
    {
        DescFlags { bits }
    }

    /// The flags that stand in either of two sets.
    pub fn union(self, other: Self) -> (flags: Self)
        ensures
            flags.bits == self.bits | other.bits,
    {
        DescFlags { bits: self.bits | other.bits }
    }

    /// Whether every flag of `other` is set.
    pub fn contains(self, other: Self) -> (yes: bool)
        ensures
            yes == (self.bits & other.bits == other.bits),
    {
        self.bits & other.bits == other.bits
    }

    /// Clear the flags of `other`.
    pub fn remove(&mut self, other: Self)
        ensures
            final(self).bits == old(self).bits & !other.bits,
    {
        self.bits = self.bits & !other.bits;
    }

    /// The bits of the flags of a chain: the two flags together, what is left of each when the
    /// chain ends, and when a chain goes on.
    pub proof fn lemma_chain_bits()
        ensures
            NEXT | WRITE == Self::of(true, false),
            Self::of(false, false) & !NEXT == Self::of(false, true),
            Self::of(true, false) & !NEXT == Self::of(true, true),
            Self::continues(Self::of(false, false)),
            Self::continues(Self::of(true, false)),
            !Self::continues(Self::of(false, true)),
            !Self::continues(Self::of(true, true)),
    {
        assert(1u16 | 2u16 == 3u16) by (bit_vector);
        assert(1u16 & !1u16 == 0u16) by (bit_vector);
        assert(3u16 & !1u16 == 2u16) by (bit_vector);
        assert(1u16 & 1u16 == 1u16) by (bit_vector);
        assert(3u16 & 1u16 == 1u16) by (bit_vector);
        assert(0u16 & 1u16 == 0u16) by (bit_vector);
        assert(2u16 & 1u16 == 0u16) by (bit_vector);
    }
}

} // verus!
