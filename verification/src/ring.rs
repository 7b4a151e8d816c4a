//! The two rings of a queue.
use crate::cell;
use volatile::Volatile;
use vstd::prelude::*;

verus! {

/// The driver uses the available ring to offer buffers to the device: each entry names the head
/// of a descriptor chain. It is only written by the driver and read by the device. Its words stay
/// where they are, as those of a descriptor do.
pub struct AvailRing<'a> {
    /// Counts the chains that were offered, modulo 2^16.
    pub idx: &'a mut Volatile<u16>,
    /// One entry for each descriptor of the queue.
    pub ring: &'a mut [Volatile<u16>],
}

impl<'a> AvailRing<'a> {
    /// What the entries contain.
    pub open spec fn entries(&self) -> Seq<u16> {
        self.ring@.map_values(|word: Volatile<u16>| cell::word16(word))
    }

    /// What the count contains.
    pub open spec fn count(&self) -> u16 {
        cell::word16(*self.idx)
    }

    /// Write an entry.
    pub fn set_entry(&mut self, slot: u16, head: u16)
        requires
            slot < old(self).entries().len(),
        ensures
            final(self).entries() == old(self).entries().update(slot as int, head),
            final(self).count() == old(self).count(),
            *final(final(self).idx) == *final(old(self).idx),
            final(final(self).ring)@ == final(old(self).ring)@,
    {
        cell::write_u16(&mut self.ring[slot as usize], head);
        assert(self.entries() =~= old(self).entries().update(slot as int, head));
    }

    /// Write the count.
    pub fn set_count(&mut self, count: u16)
        ensures
            final(self).count() == count,
            final(self).entries() == old(self).entries(),
            *final(final(self).idx) == *final(old(self).idx),
            final(final(self).ring)@ == final(old(self).ring)@,
    {
        cell::write_u16(self.idx, count);
    }
}

/// The used ring is where the device returns buffers once it is done with them: it is only
/// written to by the device, and read by the driver.
pub struct UsedRing<'a> {
    /// Counts the chains that were returned, modulo 2^16.
    pub idx: &'a Volatile<u16>,
    /// One entry for each descriptor of the queue: the token of a chain and the number of bytes
    /// written to it.
    pub ring: &'a [[Volatile<u32>; 2]],
}

/// What the device said when the used ring was read.
#[derive(Debug, Clone, Copy, PartialEq, Eq, Structural)]
pub struct Used {
    /// How many chains were returned so far, modulo 2^16.
    pub idx: u16,
    /// The token of the chain that comes next.
    pub id: u32,
    /// The number of bytes written to it.
    pub len: u32,
}

impl<'a> UsedRing<'a> {
    /// A read of the count gave this.
    pub open spec fn counts(&self, idx: u16) -> bool {
        cell::gave16(*self.idx, idx)
    }

    /// A read of the entry of a slot gave this token and this length.
    pub open spec fn holds(&self, slot: int, id: u32, len: u32) -> bool {
        &&& cell::gave32(self.ring@[slot]@[0], id)
        &&& cell::gave32(self.ring@[slot]@[1], len)
    }

    /// Read the count. The device writes it, so it may be anything.
    pub(crate) fn count(&self) -> (idx: u16)
        ensures
            self.counts(idx),
    {
        cell::sample_u16(self.idx)
    }

    /// Read the entry of a slot, once the count was read: its token and its length. The device
    /// writes them, so they may be anything.
    pub(crate) fn entry(&self, slot: u16) -> (entry: (u32, u32))
        requires
            slot < self.ring@.len(),
            exists|idx: u16| #[trigger] self.counts(idx),
        ensures
            self.holds(slot as int, entry.0, entry.1),
    {
        let elem = &self.ring[slot as usize];
        (cell::sample_u32(&elem[0]), cell::sample_u32(&elem[1]))
    }
}

} // verus!
