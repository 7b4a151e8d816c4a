//! What each operation of the block driver does: to its queue, to the request headers and to the
//! operation on a block.
use crate::blk::{BlkModel, VirtIOBlk};
use crate::cell;
use crate::descriptor::{Buffer, DescModel};
use crate::error::Error;
use crate::model::QueueModel;
use crate::operation::{Action, Operation, Outcome, Phase};
use crate::request::{
    BlkReq, BlkResp, Finished, ReadyBlock, ReqCells, ReqModel, ReqType, RespStatus,
};
use crate::ring::Used;
use vstd::prelude::*;

verus! {

/// The queue of the driver has sixteen descriptors, and each has a slot for a header.
pub proof fn law_sixteen(m: BlkModel)
    requires
        m.sound(),
    ensures
        m.queue.queue_size == 16,
        m.queue.table.len() == 16,
        m.queue.ring.len() == 16,
        m.requests.len() == 16,
        m.addrs.len() == 16,
        m.queue.num_used <= 16,
{
}

/// There is room for a request as long as three descriptors are free. Then its operation, waiting
/// or not and whatever else is in flight, begins with a notification of queue 0. Otherwise it ends
/// at once, for want of room.
pub proof fn law_begins(m: BlkModel, wait: bool)
    requires
        m.sound(),
    ensures
        m.has_room() <==> m.queue.num_used + 3 <= 16,
        m.started(wait).wait == wait,
        m.queue.num_used + 3 <= 16 ==> m.started(wait).next_action() == Action::Notify(0),
        m.queue.num_used + 3 <= 16 ==> m.started(wait).phase is Offered,
        m.queue.num_used + 3 > 16 ==> m.started(wait).next_action() == Action::Return(
            Outcome::Failed(Error::BufferTooSmall),
        ),
{
}

/// The next request has a slot if the first free descriptor is one of the sixteen, and where there
/// is room the free list stays in the table if its first three descriptors do.
pub proof fn law_next_request(m: BlkModel)
    requires
        m.sound(),
    ensures
        m.has_slot() <==> m.queue.free_head < 16,
        m.reaches() <==> m.queue.num_used + 3 > 16 || ({
            let first = m.queue.free_head;
            let second = m.queue.table[first as int].next;
            let third = m.queue.table[second as int].next;
            first < 16 && second < 16 && third < 16
        }),
{
    let first = m.queue.free_head;
    let second = m.queue.table[first as int].next;
    let third = m.queue.table[second as int].next;
    let c = seq![first, second, third];
    assert(c[0] == first && c[1] == second && c[2] == third);
    crate::effects::law_reach(m.queue, c);
    if first < 16 && second < 16 && third < 16 {
        assert forall|i: int| 0 <= i < c.len() implies #[trigger] c[i] < m.queue.table.len() by {
            assert(i == 0 || i == 1 || i == 2);
        }
    }
}

/// A request that the caller waits for: where there is room, its chain is the header, the block
/// and the status, of which the device writes the status and, to read, the block. The driver keeps
/// nothing else of it.
pub proof fn law_queued(m: BlkModel, req_addr: usize, buf: Buffer, resp_addr: usize)
    requires
        m.sound(),
    ensures
        ({
            let header = Buffer { addr: req_addr, len: 16 };
            let status = Buffer { addr: resp_addr, len: 1 };
            let r = m.read_queued(req_addr, buf, resp_addr);
            let w = m.write_queued(req_addr, buf, resp_addr);
            &&& m.queue.num_used + 3 <= 16 ==> r.queue == m.queue.added(
                seq![header],
                seq![buf, status],
            )
            &&& m.queue.num_used + 3 <= 16 ==> w.queue == m.queue.added(
                seq![header, buf],
                seq![status],
            )
            &&& m.queue.num_used + 3 > 16 ==> r.queue == m.queue && w.queue == m.queue
            &&& r.requests == m.requests && w.requests == m.requests
            &&& r.addrs == m.addrs && w.addrs == m.addrs
            &&& r.capacity == m.capacity && w.capacity == m.capacity
        }),
{
}

/// A request that nobody waits for: its header is written to the slot of the first free
/// descriptor, accepted or not, and to no other slot. Where there is room, the device is told of
/// the address of that slot.
pub proof fn law_requested(m: BlkModel, block_id: usize, buf: Buffer, resp_addr: usize)
    requires
        m.sound(),
        m.queue.free_head < 16,
    ensures
        ({
            let h = m.queue.free_head as int;
            let header = Buffer { addr: m.addrs[h], len: 16 };
            let status = Buffer { addr: resp_addr, len: 1 };
            let r = m.read_requested(block_id, buf, resp_addr);
            let w = m.write_requested(block_id, buf, resp_addr);
            &&& m.queue.num_used + 3 <= 16 ==> r.queue == m.queue.added(
                seq![header],
                seq![buf, status],
            )
            &&& m.queue.num_used + 3 <= 16 ==> w.queue == m.queue.added(
                seq![header, buf],
                seq![status],
            )
            &&& m.queue.num_used + 3 > 16 ==> r.queue == m.queue && w.queue == m.queue
            &&& r.requests.len() == 16 && w.requests.len() == 16
            &&& forall|k: int|
                0 <= k < 16 && k != h ==> #[trigger] r.requests[k] == m.requests[k]
            &&& forall|k: int|
                0 <= k < 16 && k != h ==> #[trigger] w.requests[k] == m.requests[k]
            &&& r.requests[h] == (ReqModel { code: 0, reserved: 0, sector: block_id as u64 })
            &&& w.requests[h] == (ReqModel { code: 1, reserved: 0, sector: block_id as u64 })
            &&& r.addrs == m.addrs && w.addrs == m.addrs
            &&& r.capacity == m.capacity && w.capacity == m.capacity
        }),
{
}

/// The three descriptors of a request in the table, and its head in the available ring.
spec fn stands(
    m: QueueModel,
    p: QueueModel,
    req_addr: usize,
    buf: Buffer,
    resp_addr: usize,
    block_flags: u16,
) -> bool {
    &&& p.table[m.free[0] as int] == (DescModel {
        addr: req_addr as u64,
        len: 16,
        flags: 1,
        next: m.free[1],
    })
    &&& p.table[m.free[1] as int] == (DescModel {
        addr: buf.addr as u64,
        len: 512,
        flags: block_flags,
        next: m.free[2],
    })
    &&& p.table[m.free[2] as int].addr == resp_addr
    &&& p.table[m.free[2] as int].len == 1
    &&& p.table[m.free[2] as int].flags == 2
    &&& p.ring[m.avail_idx as int % 16] == m.free[0]
    &&& p.ring_count == (m.avail_idx + 1) % 0x1_0000
}

proof fn lemma_stands(
    m: BlkModel,
    inputs: Seq<Buffer>,
    outputs: Seq<Buffer>,
    req_addr: usize,
    buf: Buffer,
    resp_addr: usize,
)
    requires
        m.wf(),
        m.queue.num_used + 3 <= 16,
        buf.len == 512,
        inputs + outputs == seq![
            Buffer { addr: req_addr, len: 16 },
            buf,
            Buffer { addr: resp_addr, len: 1 },
        ],
        inputs.len() == 1 || inputs.len() == 2,
    ensures
        stands(
            m.queue,
            m.queue.added(inputs, outputs),
            req_addr,
            buf,
            resp_addr,
            if inputs.len() == 1 {
                3
            } else {
                1
            },
        ),
        m.queue.free_head == m.queue.free[0],
{
    let q = m.queue;
    let all = inputs + outputs;
    assert(all.len() == 3);
    crate::effects::law_add_takes_free(q, inputs, outputs);
    crate::effects::law_offer(q, inputs, outputs);
    let p = q.added(inputs, outputs);
    assert(p.table[q.free[0] as int].addr == all[0].addr);
    assert(p.table[q.free[1] as int].addr == all[1].addr);
    assert(p.table[q.free[2] as int].addr == all[2].addr);
}

/// What the device finds of an accepted request whose header lies at `req_addr`: behind the head in
/// the next entry of the available ring, a header of 16 bytes to read, the block of 512 bytes, to
/// write if the request is to read and to read if it is to write, and one byte of status to write.
pub proof fn law_waiting_request_in_memory(
    m: BlkModel,
    req_addr: usize,
    buf: Buffer,
    resp_addr: usize,
)
    requires
        m.wf(),
        m.queue.num_used + 3 <= 16,
        buf.len == 512,
    ensures
        ({
            let h = m.queue.free[0];
            let r = m.read_queued(req_addr, buf, resp_addr).queue;
            let w = m.write_queued(req_addr, buf, resp_addr).queue;
            let header = DescModel {
                addr: req_addr as u64,
                len: 16,
                flags: 1,
                next: m.queue.free[1],
            };
            let block = DescModel {
                addr: buf.addr as u64,
                len: 512,
                flags: 1,
                next: m.queue.free[2],
            };
            &&& r.table[h as int] == header && w.table[h as int] == header
            &&& r.table[m.queue.free[1] as int] == (DescModel { flags: 3, ..block })
            &&& w.table[m.queue.free[1] as int] == block
            &&& r.table[m.queue.free[2] as int].addr == resp_addr
            &&& r.table[m.queue.free[2] as int].len == 1
            &&& r.table[m.queue.free[2] as int].flags == 2
            &&& w.table[m.queue.free[2] as int].addr == resp_addr
            &&& w.table[m.queue.free[2] as int].len == 1
            &&& w.table[m.queue.free[2] as int].flags == 2
            &&& r.ring[m.queue.avail_idx as int % 16] == h
            &&& w.ring[m.queue.avail_idx as int % 16] == h
            &&& r.ring_count == (m.queue.avail_idx + 1) % 0x1_0000
            &&& w.ring_count == (m.queue.avail_idx + 1) % 0x1_0000
        }),
{
    law_queued(m, req_addr, buf, resp_addr);
    let header = Buffer { addr: req_addr, len: 16 };
    let status = Buffer { addr: resp_addr, len: 1 };
    assert(seq![header] + seq![buf, status] =~= seq![header, buf, status]);
    assert(seq![header, buf] + seq![status] =~= seq![header, buf, status]);
    lemma_stands(m, seq![header], seq![buf, status], req_addr, buf, resp_addr);
    lemma_stands(m, seq![header, buf], seq![status], req_addr, buf, resp_addr);
}

/// What the device finds of an accepted request that nobody waits for: the same, and at the
/// address in the head of the chain the header of this very request.
pub proof fn law_kept_request_in_memory(
    m: BlkModel,
    block_id: usize,
    buf: Buffer,
    resp_addr: usize,
)
    requires
        m.wf(),
        m.queue.num_used + 3 <= 16,
        buf.len == 512,
    ensures
        ({
            let h = m.queue.free[0] as int;
            let r = m.read_requested(block_id, buf, resp_addr);
            let w = m.write_requested(block_id, buf, resp_addr);
            let header = DescModel {
                addr: m.addrs[h] as u64,
                len: 16,
                flags: 1,
                next: m.queue.free[1],
            };
            let block = DescModel {
                addr: buf.addr as u64,
                len: 512,
                flags: 1,
                next: m.queue.free[2],
            };
            &&& r.queue.table[h] == header && w.queue.table[h] == header
            &&& r.queue.table[m.queue.free[1] as int] == (DescModel { flags: 3, ..block })
            &&& w.queue.table[m.queue.free[1] as int] == block
            &&& r.queue.table[m.queue.free[2] as int].addr == resp_addr
            &&& r.queue.table[m.queue.free[2] as int].len == 1
            &&& r.queue.table[m.queue.free[2] as int].flags == 2
            &&& w.queue.table[m.queue.free[2] as int].addr == resp_addr
            &&& w.queue.table[m.queue.free[2] as int].len == 1
            &&& w.queue.table[m.queue.free[2] as int].flags == 2
            &&& r.queue.ring[m.queue.avail_idx as int % 16] == h
            &&& w.queue.ring[m.queue.avail_idx as int % 16] == h
            &&& r.queue.ring_count == (m.queue.avail_idx + 1) % 0x1_0000
            &&& w.queue.ring_count == (m.queue.avail_idx + 1) % 0x1_0000
            &&& r.addrs[h] == m.addrs[h] && w.addrs[h] == m.addrs[h]
            &&& r.requests[h] == (ReqModel { code: 0, reserved: 0, sector: block_id as u64 })
            &&& w.requests[h] == (ReqModel { code: 1, reserved: 0, sector: block_id as u64 })
        }),
{
    crate::blk::lemma_ready(m);
    law_requested(m, block_id, buf, resp_addr);
    let req_addr = m.addrs[m.queue.free_head as int];
    let header = Buffer { addr: req_addr, len: 16 };
    let status = Buffer { addr: resp_addr, len: 1 };
    assert(seq![header] + seq![buf, status] =~= seq![header, buf, status]);
    assert(seq![header, buf] + seq![status] =~= seq![header, buf, status]);
    lemma_stands(m, seq![header], seq![buf, status], req_addr, buf, resp_addr);
    lemma_stands(m, seq![header, buf], seq![status], req_addr, buf, resp_addr);
}

/// Taking back what the device returned is popping it from the queue. Where the device returned
/// nothing the driver stays as it is, and in any case its headers do.
pub proof fn law_collected(m: BlkModel, used: Used)
    ensures
        used.idx == m.queue.last_used_idx ==> m.collected(used) == m,
        used.idx != m.queue.last_used_idx ==> m.queue.pops(
            used,
            m.collected(used).queue,
            Ok(((used.id % 0x1_0000) as u16, used.len)),
        ),
        m.collected(used).requests == m.requests,
        m.collected(used).addrs == m.addrs,
        m.collected(used).capacity == m.capacity,
{
    crate::effects::law_acted_on(m.queue, used);
}

/// What an interrupt tells. Where the device returned nothing, it is an I/O error. Otherwise, where
/// the descriptor that the device named holds the address of its own slot, it is the block that the
/// header in this slot names: read if the header's type is 0, written if it is 1, and otherwise
/// another request. Where the descriptor holds another address, it is this address.
pub proof fn law_interrupt(m: BlkModel, used: Used)
    ensures
        used.idx == m.queue.last_used_idx ==> m.ready(used) == Err::<Finished, Error>(
            Error::IoError,
        ),
        used.idx != m.queue.last_used_idx ==> ({
            let t = used.id as int % 0x1_0000;
            let addr = m.queue.table[t].addr;
            let req = m.requests[t];
            if addr != m.addrs[t] {
                m.ready(used) == Ok::<Finished, Error>(Finished::HeaderAt(addr))
            } else if req.code == 0 {
                m.ready(used) == Ok::<Finished, Error>(
                    Finished::Request(ReadyBlock::Read(req.sector as usize)),
                )
            } else if req.code == 1 {
                m.ready(used) == Ok::<Finished, Error>(
                    Finished::Request(ReadyBlock::Write(req.sector as usize)),
                )
            } else {
                m.ready(used) == Ok::<Finished, Error>(Finished::Request(ReadyBlock::Other))
            }
        }),
{
    crate::effects::law_acted_on(m.queue, used);
}

/// A request that nobody waits for and that is taken back at once is reported as the block that
/// was asked for, and as read if it was to be read.
pub proof fn law_reports_what_was_asked(
    m: BlkModel,
    block_id: usize,
    buf: Buffer,
    resp_addr: usize,
    used: Used,
)
    requires
        m.wf(),
        m.queue.num_used + 3 <= 16,
        buf.len == 512,
        used.idx != m.queue.last_used_idx,
        used.id % 0x1_0000 == m.queue.free[0],
    ensures
        m.read_requested(block_id, buf, resp_addr).ready(used) == Ok::<Finished, Error>(
            Finished::Request(ReadyBlock::Read(block_id)),
        ),
        m.write_requested(block_id, buf, resp_addr).ready(used) == Ok::<Finished, Error>(
            Finished::Request(ReadyBlock::Write(block_id)),
        ),
{
    law_kept_request_in_memory(m, block_id, buf, resp_addr);
    crate::blk::lemma_ready(m);
    law_requested(m, block_id, buf, resp_addr);
    law_interrupt(m.read_requested(block_id, buf, resp_addr), used);
    law_interrupt(m.write_requested(block_id, buf, resp_addr), used);
}

/// What the driver reads of the used ring: the count word, and where it differs from the number of
/// chains that were taken back, the two words of the entry of that number.
pub proof fn law_driver_reads<'a>(blk: VirtIOBlk<'a>, used: Used)
    requires
        blk.says(used),
        blk.sound(),
    ensures
        cell::gave16(*blk.used_ring().idx, used.idx),
        used.idx != blk@.queue.last_used_idx ==> {
            let entry = blk.used_ring().ring@[blk@.queue.last_used_idx as int % 16];
            &&& cell::gave32(entry@[0], used.id)
            &&& cell::gave32(entry@[1], used.len)
        },
{
}

/// What the driver knows of its memory is what the words contain.
pub proof fn law_driver_words<'a>(blk: VirtIOBlk<'a>, i: int)
    requires
        0 <= i < 16,
        blk.sound(),
    ensures
        blk.rows().len() == 16,
        blk@.queue.table[i].addr == cell::word64(*blk.rows()[i].addr),
        blk@.queue.table[i].len == cell::word32(*blk.rows()[i].len),
        blk@.queue.table[i].flags == cell::word16(*blk.rows()[i].flags),
        blk@.queue.table[i].next == cell::word16(*blk.rows()[i].next),
        blk.avail_ring().ring@.len() == 16,
        blk@.queue.ring[i] == cell::word16(blk.avail_ring().ring@[i]),
        blk@.queue.ring_count == cell::word16(*blk.avail_ring().idx),
        blk.slots().len() == 16,
        blk@.requests[i].code == *blk.slots()[i].type_,
        blk@.requests[i].reserved == *blk.slots()[i].reserved,
        blk@.requests[i].sector == *blk.slots()[i].sector,
        blk@.addrs[i] == blk.slots()[i].addr,
{
    blk.law_state_is_in_memory();
}

/// A header in memory is a type, a reserved word and a sector, and so is a header that is to be
/// written.
pub proof fn law_header_words<'a>(cells: ReqCells<'a>, req: BlkReq)
    ensures
        cells@.code == *old(cells.type_),
        cells@.reserved == *old(cells.reserved),
        cells@.sector == *old(cells.sector),
        req@.code == req.type_.number(),
        req@.reserved == req.reserved,
        req@.sector == req.sector,
{
}

/// The headers in memory are taken one by one.
pub proof fn law_header_rows<'a>(headers: Seq<ReqCells<'a>>, i: int)
    requires
        0 <= i < headers.len(),
    ensures
        ReqCells::contents(headers).len() == headers.len(),
        ReqCells::contents(headers)[i].code == *headers[i].type_,
        ReqCells::contents(headers)[i].reserved == *headers[i].reserved,
        ReqCells::contents(headers)[i].sector == *headers[i].sector,
        ReqCells::addrs(headers).len() == headers.len(),
        ReqCells::addrs(headers)[i] == headers[i].addr,
{
}

/// The numbers by which the device knows requests and tells statuses.
pub proof fn law_numbers()
    ensures
        ReqType::In.number() == 0,
        ReqType::Out.number() == 1,
        ReqType::Flush.number() == 4,
        ReqType::Discard.number() == 11,
        ReqType::WriteZeroes.number() == 13,
        RespStatus::Success.number() == 0,
        RespStatus::IoErr.number() == 1,
        RespStatus::Unsupported.number() == 2,
        RespStatus::NotReady.number() == 3,
{
}

/// A request is about a block: its header names the block as the sector, and whoever reads the
/// header back learns of this block.
pub proof fn law_header_names_block(type_: ReqType, block_id: usize)
    ensures
        ReqModel::about(type_, block_id).sector == block_id,
        ReqModel::about(type_, block_id).reserved == 0,
        ReqModel::about(ReqType::In, block_id).code == 0,
        ReqModel::about(ReqType::Out, block_id).code == 1,
        ReqModel::about(type_, block_id).ready_block() == match type_ {
            ReqType::In => ReadyBlock::Read(block_id),
            ReqType::Out => ReadyBlock::Write(block_id),
            _ => ReadyBlock::Other,
        },
{
}

/// What a header tells whoever reads it.
pub proof fn law_header_read_back(req: ReqModel)
    ensures
        req.code == 0 ==> req.ready_block() == ReadyBlock::Read(req.sector as usize),
        req.code == 1 ==> req.ready_block() == ReadyBlock::Write(req.sector as usize),
        req.code > 1 ==> req.ready_block() == ReadyBlock::Other,
{
}

/// A status of 0 is success, and every other one is an I/O error.
pub proof fn law_status(resp: BlkResp)
    ensures
        resp.result() is Ok <==> resp.status == 0,
        resp.status != 0 ==> resp.result() == Err::<(), Error>(Error::IoError),
{
}

/// What comes next in an operation. Once the device is notified the driver looks; once a chain is
/// back the status is read; a status of 0 is success and every other one an I/O error. While no
/// chain is back, an operation that waits looks again and one that does not ends because it would
/// block. What cannot be acted on is an I/O error. Whether the caller waits, and on which queue,
/// never changes.
pub proof fn law_next(op: Operation, resp: BlkResp)
    ensures
        op.phase is Offered ==> op.next_action() == Action::Notify(op.queue),
        op.phase is Awaited ==> op.next_action() == Action::Look,
        op.phase is Returned ==> op.next_action() == Action::ReadStatus,
        op.phase matches Phase::Over(outcome) ==> op.next_action() == Action::Return(outcome),
        op.after_notify().next_action() == Action::Look,
        op.after_look(true).next_action() == Action::ReadStatus,
        op.wait ==> op.after_look(false).next_action() == Action::Look,
        !op.wait ==> op.after_look(false).next_action() == Action::Return(Outcome::WouldBlock),
        op.after_fault().next_action() == Action::Return(Outcome::Failed(Error::IoError)),
        resp.status == 0 ==> op.after_status(resp).next_action() == Action::Return(Outcome::Done),
        resp.status != 0 ==> op.after_status(resp).next_action() == Action::Return(
            Outcome::Failed(Error::IoError),
        ),
        op.after_notify().wait == op.wait && op.after_notify().queue == op.queue,
        forall|returned: bool|
            (#[trigger] op.after_look(returned)).wait == op.wait && op.after_look(returned).queue
                == op.queue,
        op.after_fault().wait == op.wait && op.after_fault().queue == op.queue,
        op.after_status(resp).wait == op.wait && op.after_status(resp).queue == op.queue,
        op.after_notify().phase is Awaited,
        op.after_look(true).phase is Returned,
        op.wait ==> op.after_look(false).phase is Awaited,
{
}

/// The course of an operation on a block for which there is room, from the request to its result:
/// the device is notified of queue 0, then the driver looks. Where a chain is back the status is
/// read, and the result is what the status says. Where none is back, an operation that does not
/// wait ends because it would block.
pub proof fn law_course_of_operation(m: BlkModel, wait: bool, resp: BlkResp)
    requires
        m.sound(),
        m.queue.num_used + 3 <= 16,
    ensures
        ({
            let looking = m.started(wait).after_notify();
            let done = looking.after_look(true).after_status(resp);
            &&& m.started(wait).next_action() == Action::Notify(0)
            &&& looking.next_action() == Action::Look
            &&& looking.after_look(true).next_action() == Action::ReadStatus
            &&& done.next_action() == Action::Return(
                if resp.status == 0 {
                    Outcome::Done
                } else {
                    Outcome::Failed(Error::IoError)
                },
            )
            &&& looking.after_look(false).next_action() == if wait {
                Action::Look
            } else {
                Action::Return(Outcome::WouldBlock)
            }
        }),
{
    law_begins(m, wait);
}

} // verus!
