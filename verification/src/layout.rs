//! Where the parts of a queue lie in its DMA memory, and what the device is told about it.
use crate::error::Error;
use vstd::prelude::*;

verus! {

/// The size of a page. A legacy device expects the used ring at the start of one.
pub const PAGE_SIZE: usize = 4096;

/// The size of a descriptor: an address, a length, the flags and a link.
pub const DESC_BYTES: usize = 16;

/// The size of an entry of the used ring: a token and a length.
pub const USED_ELEM_BYTES: usize = 8;

/// The size of a word of a ring.
pub const RING_WORD_BYTES: usize = 2;

/// The words that each ring holds besides its entries.
pub const RING_EXTRA_WORDS: usize = 3;

/// `u16::is_power_of_two` is true of the powers of two and of nothing else.
pub assume_specification[ u16::is_power_of_two ](n: u16) -> (yes: bool)
    ensures
        yes == vstd::arithmetic::power2::is_pow2(n as int),
;

/// The least multiple of the page size that is not below `n`.
pub open spec fn page_ceil(n: int) -> int {
    (n + PAGE_SIZE - 1) / PAGE_SIZE as int * PAGE_SIZE
}

/// Align `size` up to a page.
pub fn align_up(size: usize) -> (aligned: usize)
    requires
        size + PAGE_SIZE - 1 <= usize::MAX,
    ensures
        aligned == page_ceil(size as int),
        aligned % 4096 == 0,
        size <= aligned < size + 4096,
{
    (size + (PAGE_SIZE - 1)) / PAGE_SIZE * PAGE_SIZE
}

/// The inner layout of a virtqueue: the descriptor table, right behind it the available ring,
/// and on a page of its own the used ring.
#[derive(Debug, Clone, Copy, PartialEq, Eq, Structural)]
pub struct VirtQueueLayout {
    /// Where the available ring starts.
    pub avail_offset: usize,
    /// Where the used ring starts.
    pub used_offset: usize,
    /// The size of the whole.
    pub size: usize,
}

impl VirtQueueLayout {
    /// The bytes of a descriptor table.
    pub open spec fn table_bytes(queue_size: int) -> int {
        DESC_BYTES * queue_size
    }

    /// The bytes of an available ring.
    pub open spec fn avail_bytes(queue_size: int) -> int {
        RING_WORD_BYTES * (RING_EXTRA_WORDS + queue_size)
    }

    /// The bytes of a used ring.
    pub open spec fn used_bytes(queue_size: int) -> int {
        RING_WORD_BYTES * RING_EXTRA_WORDS + USED_ELEM_BYTES * queue_size
    }

    /// This is the layout of a queue of the given size.
    pub open spec fn is_for(self, queue_size: int) -> bool {
        &&& self.avail_offset == Self::table_bytes(queue_size)
        &&& self.used_offset == page_ceil(
            Self::table_bytes(queue_size) + Self::avail_bytes(queue_size),
        )
        &&& self.size == self.used_offset + page_ceil(Self::used_bytes(queue_size))
    }

    /// The layout of a queue whose size is a power of two.
    pub fn new(queue_size: u16) -> (layout: Self)
        requires
            vstd::arithmetic::power2::is_pow2(queue_size as int),
        ensures
            layout.is_for(queue_size as int),
            layout.avail_offset == 16 * queue_size,
            layout.used_offset % 4096 == 0,
            18 * queue_size + 6 <= layout.used_offset < 18 * queue_size + 6 + 4096,
            layout.size % 4096 == 0,
            layout.used_offset + 8 * queue_size + 6 <= layout.size < layout.used_offset + 8
                * queue_size + 6 + 4096,
    {
        let queue_size: usize = queue_size as usize;
        let desc: usize = DESC_BYTES * queue_size;
        let avail: usize = RING_WORD_BYTES * (RING_EXTRA_WORDS + queue_size);
        let used: usize = RING_WORD_BYTES * RING_EXTRA_WORDS + USED_ELEM_BYTES * queue_size;
        VirtQueueLayout {
            avail_offset: desc,
            used_offset: align_up(desc + avail),
            size: align_up(desc + avail) + align_up(used),
        }
    }
}

/// What the device is told when a queue is set up.
#[derive(Debug, Clone, Copy, PartialEq, Eq, Structural)]
pub struct QueueRegisters {
    /// The queue.
    pub queue_idx: u32,
    /// The number of its descriptors.
    pub size: u32,
    /// The alignment of the used ring.
    pub align: u32,
    /// The page frame of its memory.
    pub pfn: u32,
}

/// A queue that may be set up, before its memory is there.
#[derive(Debug, Clone, Copy, PartialEq, Eq, Structural)]
pub struct QueuePlan {
    /// The queue.
    pub queue_idx: u32,
    /// The number of its descriptors.
    pub queue_size: u16,
    /// The layout of its memory.
    pub layout: VirtQueueLayout,
}

impl QueuePlan {
    /// The size of the queue is a power of two, and the layout is that of a queue of this size.
    pub open spec fn wf(self) -> bool {
        &&& vstd::arithmetic::power2::is_pow2(self.queue_size as int)
        &&& self.layout.is_for(self.queue_size as int)
    }

    /// Why queue `idx` cannot be set up with `size` descriptors, if it cannot: the device
    /// says that the queue is in use, or the size is no power of two or more than the device
    /// offers.
    pub open spec fn refusal(queue_used: bool, max_queue_size: u32, size: u16) -> Option<Error> {
        if queue_used {
            Some(Error::AlreadyUsed)
        } else if !vstd::arithmetic::power2::is_pow2(size as int) || max_queue_size < size {
            Some(Error::InvalidParam)
        } else {
            None
        }
    }

    /// Plan queue `idx` with `size` descriptors. `queue_used` and `max_queue_size` are what the
    /// device says of the queue.
    pub fn new(queue_used: bool, max_queue_size: u32, idx: usize, size: u16) -> (plan: Result<
        Self,
        Error,
    >)
        ensures
            match Self::refusal(queue_used, max_queue_size, size) {
                Some(error) => plan == Err::<Self, Error>(error),
                None => {
                    &&& plan matches Ok(p)
                    &&& p.wf()
                    &&& p.queue_idx == idx as u32
                    &&& p.queue_size == size
                },
            },
            plan is Ok <==> !queue_used && vstd::arithmetic::power2::is_pow2(size as int) && size
                <= max_queue_size,
            queue_used ==> plan == Err::<Self, Error>(Error::AlreadyUsed),
            !queue_used && plan is Err ==> plan == Err::<Self, Error>(Error::InvalidParam),
    {
        if queue_used {
            return Err(Error::AlreadyUsed);
        }
        if !size.is_power_of_two() || max_queue_size < size as u32 {
            return Err(Error::InvalidParam);
        }
        let layout = VirtQueueLayout::new(size);
        Ok(QueuePlan { queue_idx: idx as u32, queue_size: size, layout })
    }

    /// How many pages the memory of the queue takes.
    pub fn pages(&self) -> (pages: usize)
        ensures
            pages == self.layout.size as int / 4096,
    {
        self.layout.size / PAGE_SIZE
    }

    /// What to tell the device once the memory is there, given its page frame.
    pub fn registers(&self, pfn: u32) -> (registers: QueueRegisters)
        ensures
            registers == (QueueRegisters {
                queue_idx: self.queue_idx,
                size: self.queue_size as u32,
                align: 4096,
                pfn,
            }),
    {
        QueueRegisters {
            queue_idx: self.queue_idx,
            size: self.queue_size as u32,
            align: PAGE_SIZE as u32,
            pfn,
        }
    }
}

} // verus!
