use virtio_blk::descriptor::{Buffer, DescriptorCells};
use virtio_blk::error::Error;
use virtio_blk::queue::{QueueMemory, VirtQueue};
use virtio_blk::ring::{AvailRing, Used, UsedRing};
use volatile::Volatile;

struct Row {
    addr: Volatile<u64>,
    len: Volatile<u32>,
    flags: Volatile<u16>,
    next: Volatile<u16>,
}

/// The memory of a queue, with what the device is going to answer already in the used ring.
struct Memory {
    rows: Vec<Row>,
    avail_idx: Volatile<u16>,
    avail_ring: Vec<Volatile<u16>>,
    used_idx: Volatile<u16>,
    used_ring: Vec<[Volatile<u32>; 2]>,
}

impl Memory {
    fn new(size: usize) -> Memory {
        let row = |i: usize| Row {
            addr: Volatile::new(0xdead_0000 + i as u64),
            len: Volatile::new(7),
            flags: Volatile::new(4),
            next: Volatile::new(0xbeef),
        };
        Memory {
            rows: (0..size).map(row).collect(),
            avail_idx: Volatile::new(0x55),
            avail_ring: (0..size).map(|_| Volatile::new(0xaa)).collect(),
            used_idx: Volatile::new(0),
            used_ring: (0..size).map(|_| [Volatile::new(0), Volatile::new(0)]).collect(),
        }
    }

    fn answering(size: usize, answers: &[(u32, u32)]) -> Memory {
        let mut memory = Memory::new(size);
        memory.used_idx.write(answers.len() as u16);
        for (i, (id, len)) in answers.iter().enumerate() {
            memory.used_ring[i][0].write(*id);
            memory.used_ring[i][1].write(*len);
        }
        memory
    }

    fn parts(&mut self) -> QueueMemory<'_> {
        let desc = self
            .rows
            .iter_mut()
            .map(|row| DescriptorCells {
                addr: &mut row.addr,
                len: &mut row.len,
                flags: &mut row.flags,
                next: &mut row.next,
            })
            .collect();
        QueueMemory {
            desc,
            avail: AvailRing { idx: &mut self.avail_idx, ring: &mut self.avail_ring[..] },
            used: UsedRing { idx: &self.used_idx, ring: &self.used_ring[..] },
        }
    }
}

fn queue(memory: &mut Memory) -> VirtQueue<'_> {
    let size = memory.rows.len() as u16;
    VirtQueue::new(false, 1024, 3, size, memory.parts()).ok().unwrap()
}

fn buf(addr: usize, len: usize) -> Buffer {
    Buffer { addr, len }
}

/// Address, length, flags and link of a descriptor.
fn desc(queue: &VirtQueue, id: usize) -> (u64, u32, u16, u16) {
    let d = queue.get_desc(id);
    (d.addr.read(), d.len.read(), d.flags.read(), d.next.read())
}

#[test]
fn new_queue_is_refused_when_in_use() {
    let mut memory = Memory::new(4);
    let refused = VirtQueue::new(true, 1024, 0, 4, memory.parts()).err();
    assert_eq!(refused, Some(Error::AlreadyUsed));
    // in use comes before a bad size
    let refused = VirtQueue::new(true, 1024, 0, 3, memory.parts()).err();
    assert_eq!(refused, Some(Error::AlreadyUsed));
}

#[test]
fn new_queue_is_refused_for_its_size() {
    let mut memory = Memory::new(4);
    for size in [0u16, 3, 6, 12, 65535] {
        let refused = VirtQueue::new(false, u32::MAX, 0, size, memory.parts()).err();
        assert_eq!(refused, Some(Error::InvalidParam));
    }
    let refused = VirtQueue::new(false, 3, 0, 4, memory.parts()).err();
    assert_eq!(refused, Some(Error::InvalidParam));
    assert!(VirtQueue::new(false, 4, 0, 4, memory.parts()).is_ok());
}

#[test]
fn new_queue_links_all_descriptors() {
    let mut memory = Memory::new(4);
    {
        let queue = queue(&mut memory);
        assert_eq!(queue.available_desc(), 4);
        assert_eq!(queue.get_desc_idx(), 0);
        assert_eq!(desc(&queue, 0), (0xdead_0000, 7, 4, 1));
        assert_eq!(desc(&queue, 1), (0xdead_0001, 7, 4, 2));
        assert_eq!(desc(&queue, 2), (0xdead_0002, 7, 4, 3));
        // the last link is left as it was
        assert_eq!(desc(&queue, 3), (0xdead_0003, 7, 4, 0xbeef));
        assert!(!queue.can_pop());
    }
    assert_eq!(memory.avail_idx.read(), 0x55);
    assert_eq!(memory.avail_ring[0].read(), 0xaa);
}

#[test]
fn add_without_buffers_is_refused() {
    let mut memory = Memory::new(4);
    let mut queue = queue(&mut memory);
    assert_eq!(queue.add(&[], &[]), Err(Error::InvalidParam));
    assert_eq!(queue.available_desc(), 4);
}

#[test]
fn add_beyond_the_free_descriptors_is_refused() {
    let mut memory = Memory::new(4);
    {
        let mut queue = queue(&mut memory);
        let two = [buf(1, 1), buf(2, 2)];
        let three = [buf(1, 1), buf(2, 2), buf(3, 3)];
        assert_eq!(queue.add(&two, &three), Err(Error::BufferTooSmall));
        assert_eq!(queue.add(&three, &[]), Ok(0));
        assert_eq!(queue.add(&[], &two), Err(Error::BufferTooSmall));
        assert_eq!(queue.available_desc(), 1);
        assert_eq!(queue.get_desc_idx(), 3);
        assert_eq!(queue.add(&[], &[buf(9, 9)]), Ok(3));
        assert_eq!(queue.available_desc(), 0);
        assert_eq!(queue.add(&[buf(1, 1)], &[]), Err(Error::BufferTooSmall));
        // no descriptor is free: the head is the link that the table held at first
        assert_eq!(queue.get_desc_idx(), 0xbeef);
    }
    // only the accepted requests were offered
    assert_eq!(memory.avail_idx.read(), 2);
    assert_eq!(memory.avail_ring[0].read(), 0);
    assert_eq!(memory.avail_ring[1].read(), 3);
    assert_eq!(memory.avail_ring[2].read(), 0xaa);
}

#[test]
fn add_fills_a_chain() {
    let mut memory = Memory::new(8);
    {
        let mut queue = queue(&mut memory);
        let inputs = [buf(0x1000, 16), buf(0x2000, 512)];
        let outputs = [buf(0x3000, 1), buf(0x4000, 0x1_0000_0005)];
        assert_eq!(queue.add(&inputs, &outputs), Ok(0));
        // readable buffers first, then writable ones; the last one ends the chain
        assert_eq!(desc(&queue, 0), (0x1000, 16, 1, 1));
        assert_eq!(desc(&queue, 1), (0x2000, 512, 1, 2));
        assert_eq!(desc(&queue, 2), (0x3000, 1, 3, 3));
        // of a length the low 32 bits are kept
        assert_eq!(desc(&queue, 3), (0x4000, 5, 2, 4));
        assert_eq!(desc(&queue, 4), (0xdead_0004, 7, 4, 5));
        assert_eq!(queue.add(&[buf(0x5000, 3)], &[]), Ok(4));
        assert_eq!(desc(&queue, 4), (0x5000, 3, 0, 5));
        assert_eq!(queue.available_desc(), 3);
    }
    assert_eq!(memory.rows[2].addr.read(), 0x3000);
    assert_eq!(memory.rows[2].flags.read(), 3);
    assert_eq!(memory.avail_idx.read(), 2);
    assert_eq!(memory.avail_ring[0].read(), 0);
    assert_eq!(memory.avail_ring[1].read(), 4);
}

#[test]
fn pop_without_a_returned_chain_is_not_ready() {
    let mut memory = Memory::new(4);
    let mut queue = queue(&mut memory);
    assert_eq!(queue.pop_used(), Err(Error::NotReady));
    assert_eq!(queue.add(&[buf(1, 1)], &[]), Ok(0));
    assert_eq!(queue.pop_used(), Err(Error::NotReady));
    assert_eq!(queue.available_desc(), 3);
}

#[test]
fn pop_gives_token_and_length() {
    let mut memory = Memory::answering(8, &[(2, 100), (0, 200)]);
    let mut queue = queue(&mut memory);
    assert_eq!(queue.add(&[buf(1, 1)], &[buf(2, 2)]), Ok(0));
    assert_eq!(queue.add(&[buf(3, 3)], &[buf(4, 4)]), Ok(2));
    assert!(queue.can_pop());
    assert_eq!(queue.pop_used(), Ok((2, 100)));
    assert!(queue.can_pop());
    assert_eq!(queue.available_desc(), 6);
    // the recycled chain stands before the other free descriptors
    assert_eq!(queue.get_desc_idx(), 2);
    assert_eq!(desc(&queue, 2).3, 3);
    assert_eq!(desc(&queue, 3).3, 4);
    assert_eq!(queue.pop_used(), Ok((0, 200)));
    assert_eq!(queue.available_desc(), 8);
    assert_eq!(desc(&queue, 0).3, 1);
    assert_eq!(desc(&queue, 1).3, 2);
    assert!(!queue.can_pop());
    assert_eq!(queue.pop_used(), Err(Error::NotReady));
    // all eight descriptors can be taken again, in the order of the list
    let eight: Vec<Buffer> = (0..8).map(|i| buf(i, i)).collect();
    assert_eq!(queue.add(&eight, &[]), Ok(0));
    assert_eq!(desc(&queue, 7), (7, 7, 0, 0xbeef));
}

#[test]
fn pop_of_what_cannot_be_recycled_is_an_error() {
    for id in [4u32, 7, 0xffff] {
        let mut memory = Memory::answering(4, &[(id, 0)]);
        let mut queue = queue(&mut memory);
        assert_eq!(queue.add(&[buf(1, 1), buf(2, 2)], &[]), Ok(0));
        assert!(queue.can_pop());
        assert_eq!(queue.pop_used(), Err(Error::IoError));
        assert_eq!(queue.available_desc(), 2);
        assert!(!queue.plausible(&Used { idx: 1, id, len: 0 }));
        assert!(queue.plausible(&Used { idx: 1, id: 0, len: 0 }));
        assert!(queue.plausible(&Used { idx: 0, id, len: 0 }));
    }
    // nothing is taken, so nothing can be recycled
    let mut memory = Memory::answering(4, &[(0, 0)]);
    let mut queue = queue(&mut memory);
    assert_eq!(queue.pop_used(), Err(Error::IoError));
}

#[test]
fn pop_recycles_from_the_descriptor_that_the_device_names() {
    // inside a chain
    let mut memory = Memory::answering(4, &[(1, 6)]);
    {
        let mut queue = queue(&mut memory);
        assert_eq!(queue.add(&[buf(1, 1), buf(2, 2)], &[buf(3, 3)]), Ok(0));
        assert_eq!(queue.pop_used(), Ok((1, 6)));
        assert_eq!(queue.available_desc(), 3);
        assert_eq!(queue.get_desc_idx(), 1);
        assert_eq!(desc(&queue, 0), (1, 1, 1, 1));
        assert_eq!(desc(&queue, 1), (2, 2, 1, 2));
        assert_eq!(desc(&queue, 2), (3, 3, 2, 3));
        assert!(!queue.can_pop());
        assert!(queue.reaches(3));
    }
    // a free descriptor, whose list then goes round
    let mut memory = Memory::answering(4, &[(2, 0)]);
    let mut queue = queue(&mut memory);
    assert_eq!(queue.add(&[buf(1, 1), buf(2, 2)], &[]), Ok(0));
    assert_eq!(queue.pop_used(), Ok((2, 0)));
    assert_eq!(queue.available_desc(), 3);
    assert_eq!(desc(&queue, 2).3, 2);
    assert!(queue.reaches(100));
    assert_eq!(queue.add(&[buf(8, 8)], &[buf(9, 9)]), Ok(2));
    assert_eq!(desc(&queue, 2), (9, 9, 2, 2));
    assert_eq!(queue.available_desc(), 1);
    assert_eq!(queue.get_desc_idx(), 2);
}

#[test]
fn the_free_list_reaches_all_free_descriptors() {
    let mut memory = Memory::new(4);
    let mut queue = queue(&mut memory);
    assert!(queue.reaches(4));
    assert!(!queue.reaches(5));
    assert_eq!(queue.add(&[buf(1, 1)], &[buf(2, 2)]), Ok(0));
    assert!(queue.reaches(2));
    assert!(!queue.reaches(3));
}

#[test]
fn the_low_half_of_the_id_is_the_token() {
    let mut memory = Memory::answering(4, &[(0x7_0000, 9)]);
    let mut queue = queue(&mut memory);
    assert_eq!(queue.add(&[buf(1, 1)], &[]), Ok(0));
    assert_eq!(queue.pop_used(), Ok((0, 9)));
}

#[test]
fn pop_against_given_values() {
    let mut memory = Memory::new(4);
    let mut queue = queue(&mut memory);
    assert_eq!(queue.add(&[buf(1, 1)], &[buf(2, 2)]), Ok(0));
    assert_eq!(queue.pop_used_at(&Used { idx: 0, id: 0, len: 5 }), Err(Error::NotReady));
    assert!(!queue.can_pop_at(0));
    assert!(queue.can_pop_at(1));
    assert_eq!(queue.pop_used_at(&Used { idx: 1, id: 0, len: 5 }), Ok((0, 5)));
    assert!(queue.can_pop_at(0));
    assert!(!queue.can_pop_at(1));
    assert_eq!(queue.available_desc(), 4);
}

#[test]
fn popping_undoes_adding() {
    let mut memory = Memory::new(8);
    let mut queue = queue(&mut memory);
    // a free list that is not in the order of the table
    assert_eq!(queue.add(&[buf(1, 1)], &[buf(2, 2)]), Ok(0));
    assert_eq!(queue.add(&[buf(3, 3)], &[]), Ok(2));
    assert_eq!(queue.pop_used_at(&Used { idx: 1, id: 0, len: 0 }), Ok((0, 0)));
    let links = |queue: &VirtQueue| -> Vec<u16> { (0..8).map(|i| desc(queue, i).3).collect() };
    let before = links(&queue);
    assert_eq!(queue.get_desc_idx(), 0);
    assert_eq!(before[1], 3);
    assert_eq!(queue.add(&[buf(4, 4), buf(5, 5)], &[buf(6, 6)]), Ok(0));
    assert_eq!(queue.get_desc_idx(), 4);
    assert_eq!(queue.pop_used_at(&Used { idx: 2, id: 0, len: 0 }), Ok((0, 0)));
    assert_eq!(links(&queue), before);
    assert_eq!(queue.get_desc_idx(), 0);
    assert_eq!(queue.available_desc(), 7);
}

#[test]
fn tokens_in_flight_differ() {
    let mut memory = Memory::new(16);
    let mut queue = queue(&mut memory);
    let mut tokens = Vec::new();
    for i in 0..16 {
        let token = queue.add(&[buf(i, i)], &[]).unwrap();
        assert!(!tokens.contains(&token));
        tokens.push(token);
        assert_eq!(queue.available_desc() + tokens.len(), 16);
    }
}

#[test]
fn the_counters_wrap() {
    let mut memory = Memory::new(2);
    {
        let mut queue = queue(&mut memory);
        for i in 0..65537u32 {
            assert_eq!(queue.add(&[buf(1, 1)], &[buf(2, 2)]), Ok(0));
            let idx = (i + 1) as u16;
            assert!(queue.can_pop_at(idx));
            assert_eq!(queue.pop_used_at(&Used { idx, id: 0, len: i }), Ok((0, i)));
            assert!(!queue.can_pop_at(idx));
        }
        assert_eq!(queue.available_desc(), 2);
    }
    assert_eq!(memory.avail_idx.read(), 1);
    assert_eq!(memory.avail_ring[0].read(), 0);
    assert_eq!(memory.avail_ring[1].read(), 0);
}

#[test]
fn offers_go_round_the_ring() {
    let mut memory = Memory::new(4);
    {
        let mut queue = queue(&mut memory);
        assert_eq!(queue.add(&[buf(1, 1)], &[]), Ok(0));
        assert_eq!(queue.add(&[buf(1, 1)], &[]), Ok(1));
        assert_eq!(queue.pop_used_at(&Used { idx: 1, id: 1, len: 0 }), Ok((1, 0)));
        assert_eq!(queue.add(&[buf(1, 1)], &[]), Ok(1));
        assert_eq!(queue.add(&[buf(1, 1)], &[]), Ok(2));
        assert_eq!(queue.add(&[buf(1, 1)], &[]), Ok(3));
    }
    // the fifth offer took the entry of the first one
    let ring: Vec<u16> = (0..4).map(|i| memory.avail_ring[i].read()).collect();
    assert_eq!(ring, vec![3, 1, 1, 2]);
    assert_eq!(memory.avail_idx.read(), 5);
}

#[test]
fn a_copy_of_a_descriptor_is_its_own() {
    let mut memory = Memory::new(2);
    let mut queue = queue(&mut memory);
    assert_eq!(queue.add(&[buf(0x10, 1)], &[]), Ok(0));
    let mut first = queue.get_desc(0);
    let second = first.clone();
    first.addr.write(0x20);
    assert_eq!(second.addr.read(), 0x10);
    assert_eq!(second.len.read(), 1);
    assert_eq!(second.flags.read(), 0);
    assert_eq!(second.next.read(), 1);
    assert_eq!(desc(&queue, 0).0, 0x10);
}

#[test]
fn the_rings_have_as_many_entries_as_the_queue() {
    let mut memory = Memory::new(64);
    {
        let mut queue = queue(&mut memory);
        for i in 0..64u16 {
            assert_eq!(queue.add(&[buf(0, 1)], &[]), Ok(i));
        }
        assert_eq!(queue.add(&[buf(0, 1)], &[]), Err(Error::BufferTooSmall));
    }
    assert_eq!(memory.avail_idx.read(), 64);
    for i in 0..64u16 {
        assert_eq!(memory.avail_ring[i as usize].read(), i);
    }
}

#[test]
fn all_entries_of_the_used_ring_are_read() {
    let answers: Vec<(u32, u32)> = (0..64).map(|i| (63 - i, 1000 + i)).collect();
    let mut memory = Memory::answering(64, &answers);
    let mut queue = queue(&mut memory);
    for i in 0..64u16 {
        assert_eq!(queue.add(&[buf(0, 1)], &[]), Ok(i));
    }
    for (id, len) in answers {
        assert_eq!(queue.pop_used(), Ok((id as u16, len)));
    }
    assert_eq!(queue.pop_used(), Err(Error::NotReady));
    assert_eq!(queue.available_desc(), 64);
}

#[test]
fn nothing_to_pop_is_not_ready_at_any_entry() {
    let answers: Vec<(u32, u32)> = (0..40).map(|_| (0, 0)).collect();
    let mut memory = Memory::answering(64, &answers);
    let mut queue = queue(&mut memory);
    for _ in 0..40 {
        assert_eq!(queue.add(&[buf(0, 1)], &[]), Ok(0));
        assert_eq!(queue.pop_used(), Ok((0, 0)));
    }
    assert_eq!(queue.add(&[buf(0, 1)], &[]), Ok(0));
    assert!(!queue.can_pop());
    assert_eq!(queue.pop_used(), Err(Error::NotReady));
    assert_eq!(queue.available_desc(), 63);
}
