//! Descriptors: each tells the device of one buffer.
use crate::cell;
use crate::flags::DescFlags;
use volatile::Volatile;
use vstd::prelude::*;

verus! {

/// A buffer as the device sees it: a physical address and a length.
#[derive(Debug, Clone, Copy, PartialEq, Eq, Structural)]
pub struct Buffer {
    pub addr: usize,
    pub len: usize,
}

/// The contents of a descriptor.
#[derive(Debug, Clone, Copy, PartialEq, Eq, Structural)]
pub struct DescModel {
    pub addr: u64,
    pub len: u32,
    pub flags: u16,
    pub next: u16,
}

impl DescModel {
    /// The descriptor once it tells of `buf` as one part of a chain. The link stays; of a length
    /// the low 32 bits are kept.
    pub open spec fn filled(self, buf: Buffer, writable: bool, last: bool) -> DescModel {
        DescModel {
            addr: buf.addr as u64,
            len: buf.len as u32,
            flags: DescFlags::of(writable, last),
            next: self.next,
        }
    }
}

/// A copy of a descriptor.
#[derive(Debug)]
pub struct Descriptor {
    pub addr: Volatile<u64>,
    pub len: Volatile<u32>,
    pub flags: Volatile<u16>,
    pub next: Volatile<u16>,
}

impl View for Descriptor {
    type V = DescModel;

    open spec fn view(&self) -> DescModel {
        DescModel {
            addr: cell::word64(self.addr),
            len: cell::word32(self.len),
            flags: cell::word16(self.flags),
            next: cell::word16(self.next),
        }
    }
}

impl Clone for Descriptor {
    fn clone(&self) -> (copy: Self)
        ensures
            copy@ == self@,
    {
        Descriptor {
            addr: cell::new_u64(cell::read_u64(&self.addr)),
            len: cell::new_u32(cell::read_u32(&self.len)),
            flags: cell::new_u16(cell::read_u16(&self.flags)),
            next: cell::new_u16(cell::read_u16(&self.next)),
        }
    }
}

/// A descriptor in the table that the device reads. A change of it is a change of its four words,
/// which stay where they are: the last value of each word that it refers to afterwards is the
/// last value of the word that it referred to before.
pub struct DescriptorCells<'a> {
    pub addr: &'a mut Volatile<u64>,
    pub len: &'a mut Volatile<u32>,
    pub flags: &'a mut Volatile<u16>,
    pub next: &'a mut Volatile<u16>,
}

impl<'a> View for DescriptorCells<'a> {
    type V = DescModel;

    open spec fn view(&self) -> DescModel {
        DescModel {
            addr: cell::word64(*self.addr),
            len: cell::word32(*self.len),
            flags: cell::word16(*self.flags),
            next: cell::word16(*self.next),
        }
    }
}

impl<'a> DescriptorCells<'a> {
    /// The contents of the rows of a table.
    pub open spec fn contents(rows: Seq<DescriptorCells<'a>>) -> Seq<DescModel> {
        rows.map_values(|row: DescriptorCells<'a>| row@)
    }

    /// Tell of a buffer. Of a length the low 32 bits are kept.
    pub fn set_buf(&mut self, buf: &Buffer)
        ensures
            final(self)@ == (DescModel {
                addr: buf.addr as u64,
                len: buf.len as u32,
                ..old(self)@
            }),
            *final(final(self).addr) == *final(old(self).addr),
            *final(final(self).len) == *final(old(self).len),
            *final(final(self).flags) == *final(old(self).flags),
            *final(final(self).next) == *final(old(self).next),
    {
        cell::write_u64(self.addr, buf.addr as u64);
        cell::write_u32(self.len, buf.len as u32);
    }

    /// The flags.
    pub fn flags(&self) -> (flags: DescFlags)
        ensures
            flags.bits == self@.flags,
    {
        DescFlags::new(cell::read_u16(self.flags))
    }

    /// Set the flags.
    pub fn set_flags(&mut self, flags: DescFlags)
        ensures
            final(self)@ == (DescModel { flags: flags.bits, ..old(self)@ }),
            *final(final(self).addr) == *final(old(self).addr),
            *final(final(self).len) == *final(old(self).len),
            *final(final(self).flags) == *final(old(self).flags),
            *final(final(self).next) == *final(old(self).next),
    {
        cell::write_u16(self.flags, flags.bits);
    }

    /// The link.
    pub fn next(&self) -> (next: u16)
        ensures
            next == self@.next,
    {
        cell::read_u16(self.next)
    }

    /// Set the link.
    pub fn set_next(&mut self, next: u16)
        ensures
            final(self)@ == (DescModel { next, ..old(self)@ }),
            *final(final(self).addr) == *final(old(self).addr),
            *final(final(self).len) == *final(old(self).len),
            *final(final(self).flags) == *final(old(self).flags),
            *final(final(self).next) == *final(old(self).next),
    {
        cell::write_u16(self.next, next);
    }

    /// A copy of the descriptor.
    pub fn load(&self) -> (copy: Descriptor)
        ensures
            copy@ == self@,
    {
        Descriptor {
            addr: cell::new_u64(cell::read_u64(self.addr)),
            len: cell::new_u32(cell::read_u32(self.len)),
            flags: cell::new_u16(cell::read_u16(self.flags)),
            next: cell::new_u16(cell::read_u16(self.next)),
        }
    }
}

} // verus!
