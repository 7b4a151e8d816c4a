use virtio_blk::blk::VirtIOBlk;
use virtio_blk::descriptor::{Buffer, DescriptorCells};
use virtio_blk::error::Error;
use virtio_blk::operation::{Action, Operation, Outcome};
use virtio_blk::queue::QueueMemory;
use virtio_blk::request::{
    BlkReq, BlkResp, Finished, ReadyBlock, ReqCells, ReqType, RespStatus,
};
use virtio_blk::ring::{AvailRing, Used, UsedRing};
use volatile::Volatile;

struct Row {
    addr: Volatile<u64>,
    len: Volatile<u32>,
    flags: Volatile<u16>,
    next: Volatile<u16>,
}

/// A request header: type, reserved word and sector.
#[derive(Debug, Clone, Copy, PartialEq)]
struct Header(u32, u32, u64);

impl Header {
    fn cells(&mut self, addr: usize) -> ReqCells<'_> {
        ReqCells { addr, type_: &mut self.0, reserved: &mut self.1, sector: &mut self.2 }
    }
}

fn blank() -> Header {
    Header(99, 99, 99)
}

/// A response of an earlier request.
fn stale() -> BlkResp {
    BlkResp { status: 0 }
}

/// What a slot of the driver contains.
fn slot(blk: &VirtIOBlk, i: usize) -> Header {
    let req = blk.request(i);
    Header(*req.type_, *req.reserved, *req.sector)
}

/// Where the device finds a slot.
fn slot_addr(i: usize) -> usize {
    0x9000 + 16 * i
}

/// The memory of a queue, with what the device is going to answer already in the used ring, and
/// of the request headers.
struct Memory {
    rows: Vec<Row>,
    avail_idx: Volatile<u16>,
    avail_ring: Vec<Volatile<u16>>,
    used_idx: Volatile<u16>,
    used_ring: Vec<[Volatile<u32>; 2]>,
    headers: Vec<Header>,
}

impl Memory {
    fn answering(answers: &[u32]) -> Memory {
        let row = |_| Row {
            addr: Volatile::new(0),
            len: Volatile::new(0),
            flags: Volatile::new(0),
            next: Volatile::new(0),
        };
        let mut memory = Memory {
            rows: (0..16).map(row).collect(),
            avail_idx: Volatile::new(0),
            avail_ring: (0..16).map(|_| Volatile::new(0)).collect(),
            used_idx: Volatile::new(answers.len() as u16),
            used_ring: (0..16).map(|_| [Volatile::new(0), Volatile::new(0)]).collect(),
            headers: vec![blank(); 16],
        };
        for (i, id) in answers.iter().enumerate() {
            memory.used_ring[i][0].write(*id);
        }
        memory
    }

    fn parts(&mut self) -> (QueueMemory<'_>, Vec<ReqCells<'_>>) {
        let desc = self
            .rows
            .iter_mut()
            .map(|row| DescriptorCells {
                addr: &mut row.addr,
                len: &mut row.len,
                flags: &mut row.flags,
                next: &mut row.next,
            })
            .collect();
        let queue = QueueMemory {
            desc,
            avail: AvailRing { idx: &mut self.avail_idx, ring: &mut self.avail_ring[..] },
            used: UsedRing { idx: &self.used_idx, ring: &self.used_ring[..] },
        };
        let headers = self.headers.iter_mut().enumerate();
        (queue, headers.map(|(i, header)| header.cells(slot_addr(i))).collect())
    }

    fn row(&self, i: usize) -> (u64, u32, u16, u16) {
        let row = &self.rows[i];
        (row.addr.read(), row.len.read(), row.flags.read(), row.next.read())
    }
}

fn driver(memory: &mut Memory) -> VirtIOBlk<'_> {
    let (queue, headers) = memory.parts();
    VirtIOBlk::new(false, 1024, 2048, queue, headers).ok().unwrap()
}

const DATA: Buffer = Buffer { addr: 0x2000, len: 512 };

fn ready(block: ReadyBlock) -> Result<Finished, Error> {
    Ok(Finished::Request(block))
}

fn returned(idx: u16, id: u32) -> Used {
    Used { idx, id, len: 513 }
}

/// Carry out an operation to its end, with the status that the device has written.
fn run(blk: &mut VirtIOBlk, mut op: Operation, status: u8) -> Outcome {
    let mut notified = 0;
    loop {
        match op.action() {
            Action::Notify(queue) => {
                assert_eq!(queue, 0);
                notified += 1;
                op.notified();
            }
            Action::Look => blk.look(&mut op),
            Action::ReadStatus => {
                assert_eq!(notified, 1);
                op.status(&BlkResp { status });
            }
            Action::Return(outcome) => return outcome,
        }
    }
}

#[test]
fn new_driver_is_refused() {
    let mut memory = Memory::answering(&[]);
    let (queue, headers) = memory.parts();
    let refused = VirtIOBlk::new(true, 1024, 0, queue, headers).err();
    assert_eq!(refused, Some(Error::AlreadyUsed));
    let (queue, headers) = memory.parts();
    let refused = VirtIOBlk::new(false, 8, 0, queue, headers).err();
    assert_eq!(refused, Some(Error::InvalidParam));
    let (queue, headers) = memory.parts();
    assert!(VirtIOBlk::new(false, 16, 0, queue, headers).is_ok());
}

#[test]
fn new_driver_has_empty_slots() {
    let mut memory = Memory::answering(&[]);
    {
        let blk = driver(&mut memory);
        assert_eq!(blk.next_slot(), 0);
        assert!(blk.has_slot());
        assert!(blk.reaches());
        for i in 0..16 {
            assert_eq!(slot(&blk, i), Header(0, 0, 0));
            assert_eq!(blk.request(i).addr, slot_addr(i));
        }
    }
    assert_eq!(memory.headers, vec![Header(0, 0, 0); 16]);
}

#[test]
fn request_headers() {
    let mut header = blank();
    header.cells(0x10).set(BlkReq::new(ReqType::Out, 0x0123_4567_89ab_cdef));
    assert_eq!(header, Header(1, 0, 0x0123_4567_89ab_cdef));
    header.cells(0x10).set(BlkReq::new(ReqType::WriteZeroes, 1));
    assert_eq!(header, Header(13, 0, 1));
}

#[test]
fn request_types() {
    assert_eq!(ReqType::In.code(), 0);
    assert_eq!(ReqType::Out.code(), 1);
    assert_eq!(ReqType::Flush.code(), 4);
    assert_eq!(ReqType::Discard.code(), 11);
    assert_eq!(ReqType::WriteZeroes.code(), 13);
    let far: usize = 0x1_2345_6789_abcd;
    for (code, sector, ready) in [
        (0, 70_000, ReadyBlock::Read(70_000)),
        (1, 5, ReadyBlock::Write(5)),
        (0, far as u64, ReadyBlock::Read(far)),
        (4, 5, ReadyBlock::Other),
        (11, 5, ReadyBlock::Other),
        (13, 5, ReadyBlock::Other),
        (2, 5, ReadyBlock::Other),
    ] {
        assert_eq!(Header(code, 0, sector).cells(0x10).ready_block(), ready);
    }
}

#[test]
fn response_statuses() {
    assert_eq!(BlkResp::default().status, 3);
    assert_eq!(BlkResp::default().outcome(), Err(Error::IoError));
    assert_eq!(BlkResp { status: RespStatus::Success.code() }.outcome(), Ok(()));
    assert_eq!(BlkResp { status: RespStatus::IoErr.code() }.outcome(), Err(Error::IoError));
    assert_eq!(BlkResp { status: RespStatus::Unsupported.code() }.outcome(), Err(Error::IoError));
    assert_eq!(BlkResp { status: 0xff }.outcome(), Err(Error::IoError));
}

#[test]
fn a_response_is_not_ready_when_its_request_is_offered() {
    let mut memory = Memory::answering(&[]);
    let mut blk = driver(&mut memory);
    let mut header = blank();
    let mut responses = [stale(); 6];
    let [a, b, c, d, e, f] = &mut responses;
    blk.read_block(1, header.cells(0x1000), DATA, a, 0x3000);
    blk.write_block(2, header.cells(0x1000), DATA, b, 0x3001);
    blk.read_block_non_block(3, DATA, c, 0x3002);
    blk.write_block_non_block(4, DATA, d, 0x3003);
    blk.write_block_non_block(5, DATA, e, 0x3004);
    // refused
    let op = blk.read_block(6, header.cells(0x1000), DATA, f, 0x3005);
    assert_eq!(op.action(), Action::Return(Outcome::Failed(Error::BufferTooSmall)));
    for resp in responses {
        assert_eq!(resp.status, 3);
    }
}

#[test]
fn read_block_offers_a_header_a_block_and_a_status() {
    let mut memory = Memory::answering(&[0]);
    {
        let mut blk = driver(&mut memory);
        let mut header = blank();
        let op = blk.read_block(7, header.cells(0x1000), DATA, &mut stale(), 0x3000);
        assert_eq!(op.action(), Action::Notify(0));
        // the header is the caller's, the slots stay as they were
        assert_eq!(header, Header(0, 0, 7));
        assert_eq!(slot(&blk, 0), Header(0, 0, 0));
        assert_eq!(blk.next_slot(), 3);
        assert_eq!(run(&mut blk, op, 0), Outcome::Done);
        assert_eq!(blk.next_slot(), 0);
    }
    assert_eq!(memory.row(0), (0x1000, 16, 1, 1));
    assert_eq!(memory.row(1), (0x2000, 512, 3, 2));
    assert_eq!(memory.row(2), (0x3000, 1, 2, 3));
    assert_eq!(memory.avail_idx.read(), 1);
    assert_eq!(memory.avail_ring[0].read(), 0);
}

#[test]
fn write_block_offers_a_header_a_block_and_a_status() {
    let mut memory = Memory::answering(&[0]);
    {
        let mut blk = driver(&mut memory);
        let mut header = blank();
        let op = blk.write_block(9, header.cells(0x1000), DATA, &mut stale(), 0x3000);
        assert_eq!(header, Header(1, 0, 9));
        assert_eq!(slot(&blk, 0), Header(0, 0, 0));
        assert_eq!(run(&mut blk, op, 0), Outcome::Done);
    }
    assert_eq!(memory.row(0), (0x1000, 16, 1, 1));
    assert_eq!(memory.row(1), (0x2000, 512, 1, 2));
    assert_eq!(memory.row(2), (0x3000, 1, 2, 3));
}

#[test]
fn blocking_results() {
    assert_eq!(Outcome::Done.blocking(), Ok(()));
    for error in [Error::IoError, Error::BufferTooSmall] {
        assert_eq!(Outcome::Failed(error).blocking(), Err(error));
    }
    for status in [1, 2, 3, 200] {
        let mut memory = Memory::answering(&[0]);
        let mut blk = driver(&mut memory);
        let op = blk.read_block(7, blank().cells(0x1000), DATA, &mut stale(), 0x3000);
        assert_eq!(run(&mut blk, op, status), Outcome::Failed(Error::IoError));
    }
}

#[test]
fn non_blocking_results() {
    assert_eq!(Outcome::Done.non_blocking(), Ok(()));
    assert_eq!(Outcome::WouldBlock.non_blocking(), Err(nb::Error::WouldBlock));
    for error in [Error::IoError, Error::BufferTooSmall] {
        assert_eq!(Outcome::Failed(error).non_blocking(), Err(nb::Error::Other(error)));
    }
}

#[test]
fn a_waiting_operation_looks_until_the_chain_is_back() {
    let mut memory = Memory::answering(&[]);
    let mut blk = driver(&mut memory);
    let mut op = blk.write_block(1, blank().cells(0x1000), DATA, &mut stale(), 0x3000);
    op.notified();
    for _ in 0..10 {
        blk.look(&mut op);
        assert_eq!(op.action(), Action::Look);
    }
    blk.look_at(&mut op, &returned(1, 0));
    assert_eq!(op.action(), Action::ReadStatus);
    op.status(&BlkResp { status: 0 });
    assert_eq!(op.action(), Action::Return(Outcome::Done));
}

#[test]
fn an_operation_that_does_not_wait_looks_once() {
    let mut memory = Memory::answering(&[]);
    let mut blk = driver(&mut memory);
    let op = blk.read_block_non_block(1, DATA, &mut stale(), 0x3000);
    assert_eq!(run(&mut blk, op, 0), Outcome::WouldBlock);
    let op = blk.write_block_non_block(2, DATA, &mut stale(), 0x3000);
    assert_eq!(run(&mut blk, op, 0), Outcome::WouldBlock);
    // both requests stay in flight
    assert_eq!(blk.next_slot(), 6);
}

#[test]
fn an_operation_that_does_not_wait_can_be_done_at_once() {
    let mut memory = Memory::answering(&[0, 0]);
    let mut blk = driver(&mut memory);
    let op = blk.read_block_non_block(1, DATA, &mut stale(), 0x3000);
    assert_eq!(run(&mut blk, op, 0), Outcome::Done);
    let op = blk.write_block_non_block(1, DATA, &mut stale(), 0x3000);
    assert_eq!(run(&mut blk, op, 1), Outcome::Failed(Error::IoError));
}

#[test]
fn what_cannot_be_recycled_fails_the_operation() {
    for id in [16, 40, 0xffff] {
        let mut memory = Memory::answering(&[id]);
        let mut blk = driver(&mut memory);
        let op = blk.read_block(1, blank().cells(0x1000), DATA, &mut stale(), 0x3000);
        assert_eq!(run(&mut blk, op, 0), Outcome::Failed(Error::IoError));
        assert_eq!(blk.next_slot(), 3);
        assert_eq!(blk.handle_interrupt(), Err(Error::IoError));
        assert_eq!(blk.next_slot(), 3);
    }
}

#[test]
fn a_descriptor_inside_a_chain_is_recycled_from_there_on() {
    let mut memory = Memory::answering(&[1]);
    {
        let mut blk = driver(&mut memory);
        let op = blk.read_block(1, blank().cells(0x1000), DATA, &mut stale(), 0x3000);
        assert_eq!(run(&mut blk, op, 0), Outcome::Done);
        assert_eq!(blk.next_slot(), 1);
        assert!(blk.has_slot());
        assert!(blk.reaches());
        // the next request takes the recycled descriptors and the one behind them
        let op = blk.write_block_non_block(2, DATA, &mut stale(), 0x3000);
        assert_eq!(op.action(), Action::Notify(0));
        assert_eq!(blk.next_slot(), 4);
    }
    assert_eq!(memory.row(0), (0x1000, 16, 1, 1));
    assert_eq!(memory.row(1), (slot_addr(1) as u64, 16, 1, 2));
    assert_eq!(memory.row(2), (0x2000, 512, 1, 3));
    assert_eq!(memory.row(3), (0x3000, 1, 2, 4));
    assert_eq!(memory.headers[1], Header(1, 0, 2));
    assert_eq!(memory.avail_ring[1].read(), 1);
}

#[test]
fn an_interrupt_tells_where_a_foreign_header_lies() {
    let mut memory = Memory::answering(&[]);
    let mut blk = driver(&mut memory);
    let mut header = blank();
    let op = blk.write_block(8, header.cells(0x1000), DATA, &mut stale(), 0x3000);
    assert_eq!(op.action(), Action::Notify(0));
    let op = blk.read_block_non_block(9, DATA, &mut stale(), 0x3001);
    assert_eq!(op.action(), Action::Notify(0));
    // the header of the request that a caller waits for
    assert_eq!(blk.handle_interrupt_at(&returned(1, 0)), Ok(Finished::HeaderAt(0x1000)));
    // the device names the block of the other request
    assert_eq!(blk.handle_interrupt_at(&returned(2, 4)), Ok(Finished::HeaderAt(0x2000)));
    assert_eq!(blk.next_slot(), 4);
}

#[test]
fn there_is_room_for_five_requests() {
    let mut memory = Memory::answering(&[]);
    {
        let mut blk = driver(&mut memory);
        for i in 0..5 {
            assert_eq!(blk.next_slot(), 3 * i);
            let op = blk.read_block_non_block(i, DATA, &mut stale(), 0x3000);
            assert_eq!(run(&mut blk, op, 0), Outcome::WouldBlock);
        }
        let op = blk.read_block_non_block(5, DATA, &mut stale(), 0x3000);
        assert_eq!(run(&mut blk, op, 0), Outcome::Failed(Error::BufferTooSmall));
        let op = blk.write_block(6, blank().cells(0x1000), DATA, &mut stale(), 0x3000);
        assert_eq!(op.action(), Action::Return(Outcome::Failed(Error::BufferTooSmall)));
        // the slots of the requests in flight are not touched
        for i in 0..5 {
            assert_eq!(slot(&blk, 3 * i), Header(0, 0, i as u64));
        }
        assert_eq!(blk.next_slot(), 15);
    }
    assert_eq!(memory.avail_idx.read(), 5);
}

#[test]
fn an_interrupt_without_a_returned_chain_is_an_error() {
    let mut memory = Memory::answering(&[]);
    let mut blk = driver(&mut memory);
    assert_eq!(blk.handle_interrupt(), Err(Error::IoError));
    let op = blk.read_block_non_block(1, DATA, &mut stale(), 0x3000);
    assert_eq!(run(&mut blk, op, 0), Outcome::WouldBlock);
    assert_eq!(blk.handle_interrupt(), Err(Error::IoError));
    assert_eq!(blk.handle_interrupt_at(&returned(0, 0)), Err(Error::IoError));
    assert_eq!(blk.next_slot(), 3);
}

#[test]
fn an_interrupt_tells_which_request_is_done() {
    let mut memory = Memory::answering(&[]);
    let mut blk = driver(&mut memory);
    let read = blk.read_block_non_block(70, DATA, &mut stale(), 0x3000);
    assert_eq!(run(&mut blk, read, 0), Outcome::WouldBlock);
    let write = blk.write_block_non_block(80, DATA, &mut stale(), 0x3001);
    assert_eq!(run(&mut blk, write, 0), Outcome::WouldBlock);
    let read = blk.read_block_non_block(90, DATA, &mut stale(), 0x3002);
    assert_eq!(run(&mut blk, read, 0), Outcome::WouldBlock);
    // the device answers out of order, and a slot is used again meanwhile
    assert_eq!(blk.handle_interrupt_at(&returned(1, 3)), ready(ReadyBlock::Write(80)));
    let mut write = blk.write_block_non_block(100, DATA, &mut stale(), 0x3001);
    write.notified();
    blk.look_at(&mut write, &returned(1, 0));
    assert_eq!(write.action(), Action::Return(Outcome::WouldBlock));
    assert_eq!(blk.handle_interrupt_at(&returned(2, 0)), ready(ReadyBlock::Read(70)));
    assert_eq!(blk.handle_interrupt_at(&returned(3, 3)), ready(ReadyBlock::Write(100)));
    assert_eq!(blk.handle_interrupt_at(&returned(4, 6)), ready(ReadyBlock::Read(90)));
    assert_eq!(blk.handle_interrupt_at(&returned(4, 6)), Err(Error::IoError));
}

#[test]
fn an_interrupt_reads_the_used_ring() {
    let mut memory = Memory::answering(&[0]);
    let mut blk = driver(&mut memory);
    let op = blk.write_block_non_block(0xabcdef, DATA, &mut stale(), 0x3000);
    assert_eq!(op.action(), Action::Notify(0));
    assert_eq!(blk.handle_interrupt(), ready(ReadyBlock::Write(0xabcdef)));
    assert_eq!(blk.handle_interrupt(), Err(Error::IoError));
    assert_eq!(blk.next_slot(), 0);
}

#[test]
fn a_refused_blocking_request_changes_nothing() {
    let mut memory = Memory::answering(&[]);
    {
        let mut blk = driver(&mut memory);
        for i in 0..5 {
            let op = blk.write_block_non_block(50 + i, DATA, &mut stale(), 0x3000);
            assert_eq!(op.action(), Action::Notify(0));
        }
        // a refused request that nobody waits for leaves its header in the free slot
        let op = blk.read_block_non_block(77, DATA, &mut stale(), 0x3000);
        assert_eq!(op.action(), Action::Return(Outcome::Failed(Error::BufferTooSmall)));
        let slots =
            |blk: &VirtIOBlk| -> Vec<Header> { (0..16).map(|i| slot(blk, i)).collect() };
        let before = slots(&blk);
        assert_eq!(before[15], Header(0, 0, 77));
        // a refused request that the caller waits for leaves everything
        for op in [
            blk.read_block(1, blank().cells(0x1000), DATA, &mut stale(), 0x3000),
            blk.write_block(2, blank().cells(0x1000), DATA, &mut stale(), 0x3000),
        ] {
            assert_eq!(op.action(), Action::Return(Outcome::Failed(Error::BufferTooSmall)));
        }
        assert_eq!(slots(&blk), before);
        assert_eq!(blk.next_slot(), 15);
    }
    assert_eq!(memory.avail_idx.read(), 5);
}

#[test]
fn a_completed_blocking_request_gives_everything_back() {
    for status in [0, 1] {
        let mut memory = Memory::answering(&[0]);
        let mut blk = driver(&mut memory);
        let op = blk.read_block(7, blank().cells(0x1000), DATA, &mut stale(), 0x3000);
        let outcome = run(&mut blk, op, status);
        assert_eq!(outcome.blocking().is_ok(), status == 0);
        assert_eq!(blk.next_slot(), 0);
        for i in 0..16 {
            assert_eq!(slot(&blk, i), Header(0, 0, 0));
        }
        assert_eq!(blk.handle_interrupt(), Err(Error::IoError));
    }
}
