//! The virtio block device.
use crate::cell;
use crate::descriptor::{Buffer, DescModel, DescriptorCells};
use crate::error::Error;
use crate::layout::QueuePlan;
use crate::model::QueueModel;
use crate::operation::{Operation, Outcome, Phase};
use crate::queue::{QueueMemory, VirtQueue};
use crate::request::{
    BlkReq, BlkResp, Finished, ReqCells, ReqModel, ReqType, RespStatus, BLK_SIZE, REQ_BYTES,
    RESP_BYTES,
};
use crate::ring::{AvailRing, Used, UsedRing};
use volatile::Volatile;
use vstd::prelude::*;

verus! {

/// The number of descriptors in the queue of the device.
pub const QUEUE_SIZE: usize = 16;

/// The queue of the device that takes requests.
pub const REQUEST_QUEUE: u32 = 0;

/// The descriptors that a request for one block takes: its header, the block and the status.
pub const REQUEST_DESCS: usize = 3;

/// The state of the driver.
#[verifier::ext_equal]
pub struct BlkModel {
    /// The queue.
    pub queue: QueueModel,
    /// The number of sectors of the device.
    pub capacity: usize,
    /// The headers of the requests that nobody waits for, each in the slot of the descriptor that
    /// its chain starts with.
    pub requests: Seq<ReqModel>,
    /// Where the device finds the slots.
    pub addrs: Seq<usize>,
}

impl BlkModel {
    /// The state is one that the driver can be in, whatever the device names.
    pub open spec fn sound(self) -> bool {
        &&& self.queue.sound()
        &&& self.queue.queue_size == QUEUE_SIZE
        &&& self.requests.len() == QUEUE_SIZE
        &&& self.addrs.len() == QUEUE_SIZE
    }

    /// The state is one that the driver can be in as long as the device names nothing but tokens
    /// in flight. Every chain in flight is a request for one block, so there is always a free
    /// descriptor.
    pub open spec fn wf(self) -> bool {
        &&& self.sound()
        &&& self.queue.wf()
        &&& self.queue.chains.dom().finite()
        &&& REQUEST_DESCS * self.queue.chains.dom().len() + self.queue.free.len() == QUEUE_SIZE
        &&& forall|h: u16| #[trigger]
            self.queue.chains.contains_key(h) ==> self.queue.chains[h].len() == REQUEST_DESCS
    }

    /// There is room for one more request.
    pub open spec fn has_room(self) -> bool {
        self.queue.refusal(REQUEST_DESCS as int) is None
    }

    /// Where there is room, the free list stays in the table for one more request.
    pub open spec fn reaches(self) -> bool {
        self.has_room() ==> self.queue.reaches(REQUEST_DESCS as nat)
    }

    /// The next request has a slot for its header.
    pub open spec fn has_slot(self) -> bool {
        self.queue.free_head < QUEUE_SIZE
    }

    /// A new operation: its request is in the queue, or it was refused for want of room.
    pub open spec fn started(self, wait: bool) -> Operation {
        Operation {
            wait,
            queue: REQUEST_QUEUE,
            phase: if self.has_room() {
                Phase::Offered
            } else {
                Phase::Over(Outcome::Failed(Error::BufferTooSmall))
            },
        }
    }

    /// The state after a request whose header lies elsewhere: where there is room, the queue holds
    /// a chain of its buffers.
    pub open spec fn queued(self, inputs: Seq<Buffer>, outputs: Seq<Buffer>) -> BlkModel {
        BlkModel {
            queue: if self.has_room() {
                self.queue.added(inputs, outputs)
            } else {
                self.queue
            },
            ..self
        }
    }

    /// The state after a request whose header goes to the slot of the first free descriptor.
    pub open spec fn requested(
        self,
        req: ReqModel,
        inputs: Seq<Buffer>,
        outputs: Seq<Buffer>,
    ) -> BlkModel {
        BlkModel {
            requests: self.requests.update(self.queue.free_head as int, req),
            ..self.queued(inputs, outputs)
        }
    }

    /// What the device reads of a request to read a block: the header.
    pub open spec fn read_inputs(req_addr: usize) -> Seq<Buffer> {
        seq![Buffer { addr: req_addr, len: REQ_BYTES }]
    }

    /// What the device writes of a request to read a block: the block and the status.
    pub open spec fn read_outputs(buf: Buffer, resp_addr: usize) -> Seq<Buffer> {
        seq![buf, Buffer { addr: resp_addr, len: RESP_BYTES }]
    }

    /// What the device reads of a request to write a block: the header and the block.
    pub open spec fn write_inputs(req_addr: usize, buf: Buffer) -> Seq<Buffer> {
        seq![Buffer { addr: req_addr, len: REQ_BYTES }, buf]
    }

    /// What the device writes of a request to write a block: the status.
    pub open spec fn write_outputs(resp_addr: usize) -> Seq<Buffer> {
        seq![Buffer { addr: resp_addr, len: RESP_BYTES }]
    }

    /// The state after a request to read into `buf` whose header lies with the caller.
    pub open spec fn read_queued(self, req_addr: usize, buf: Buffer, resp_addr: usize) -> BlkModel {
        self.queued(Self::read_inputs(req_addr), Self::read_outputs(buf, resp_addr))
    }

    /// The state after a request to write `buf` whose header lies with the caller.
    pub open spec fn write_queued(
        self,
        req_addr: usize,
        buf: Buffer,
        resp_addr: usize,
    ) -> BlkModel {
        self.queued(Self::write_inputs(req_addr, buf), Self::write_outputs(resp_addr))
    }

    /// Where the device finds the slot of the first free descriptor.
    pub open spec fn slot_addr(self) -> usize {
        self.addrs[self.queue.free_head as int]
    }

    /// The state after a request to read a block into `buf` whose header the driver keeps.
    pub open spec fn read_requested(
        self,
        block_id: usize,
        buf: Buffer,
        resp_addr: usize,
    ) -> BlkModel {
        self.requested(
            ReqModel::about(ReqType::In, block_id),
            Self::read_inputs(self.slot_addr()),
            Self::read_outputs(buf, resp_addr),
        )
    }

    /// The state after a request to write `buf` to a block whose header the driver keeps.
    pub open spec fn write_requested(
        self,
        block_id: usize,
        buf: Buffer,
        resp_addr: usize,
    ) -> BlkModel {
        self.requested(
            ReqModel::about(ReqType::Out, block_id),
            Self::write_inputs(self.slot_addr(), buf),
            Self::write_outputs(resp_addr),
        )
    }

    /// The state after a returned chain was taken back, or the same state where the device
    /// returned none.
    pub open spec fn collected(self, used: Used) -> BlkModel {
        BlkModel {
            queue: if self.queue.can_pop(used.idx) {
                self.queue.popped(used)
            } else {
                self.queue
            },
            ..self
        }
    }

    /// What an interrupt is about, or an I/O error where the device returned nothing. The
    /// descriptor that the device names holds the address of a request's header: that of its own
    /// slot, or another one.
    pub open spec fn ready(self, used: Used) -> Result<Finished, Error> {
        let token = QueueModel::token(used) as int;
        if !self.queue.can_pop(used.idx) {
            Err(Error::IoError)
        } else if self.queue.table[token].addr == self.addrs[token] as u64 {
            Ok(Finished::Request(self.requests[token].ready_block()))
        } else {
            Ok(Finished::HeaderAt(self.queue.table[token].addr))
        }
    }
}

/// In a valid state the next request has a slot, and descriptors where there is room.
pub proof fn lemma_ready(m: BlkModel)
    requires
        m.wf(),
    ensures
        m.reaches(),
        m.has_slot(),
        m.queue.free.len() > 0,
        m.queue.free_head == m.queue.free[0],
        !m.queue.chains.contains_key(m.queue.free_head),
        m.has_room() == (m.queue.free.len() >= REQUEST_DESCS),
{
    if m.has_room() {
        crate::model::lemma_reaches(m.queue, REQUEST_DESCS as nat);
    }
    if m.queue.chains.contains_key(m.queue.free_head) {
        assert(m.queue.chain_wf(m.queue.free_head));
        assert(m.queue.free[0] != m.queue.chains[m.queue.free_head][0]);
    }
}

/// A request leads to a valid state, with or without a header in the slot.
pub proof fn lemma_queued_wf(m: BlkModel, inputs: Seq<Buffer>, outputs: Seq<Buffer>)
    requires
        m.wf(),
        inputs.len() + outputs.len() == REQUEST_DESCS,
    ensures
        m.queued(inputs, outputs).wf(),
        forall|req: ReqModel| #[trigger] m.requested(req, inputs, outputs).wf(),
{
    lemma_ready(m);
    let p = m.queued(inputs, outputs);
    if m.has_room() {
        crate::model::lemma_added_wf(m.queue, inputs, outputs);
        crate::model::lemma_reaches(m.queue, REQUEST_DESCS as nat);
        assert forall|h: u16| #[trigger]
            p.queue.chains.contains_key(h) implies p.queue.chains[h].len() == REQUEST_DESCS by {
            if h != m.queue.free_head {
                assert(m.queue.chains.contains_key(h));
            }
        }
    }
}

/// Taking back a chain in flight leads to a valid state.
pub proof fn lemma_collected_wf(m: BlkModel, used: Used)
    requires
        m.wf(),
        m.queue.honest(used),
    ensures
        m.collected(used).wf(),
        m.queue.plausible(used),
{
    let p = m.collected(used);
    if m.queue.can_pop(used.idx) {
        let token = QueueModel::token(used);
        crate::model::lemma_in_flight(m.queue, token);
        crate::model::lemma_popped_wf(m.queue, used);
        assert forall|h: u16| #[trigger]
            p.queue.chains.contains_key(h) implies p.queue.chains[h].len() == REQUEST_DESCS by {
            assert(m.queue.chains.contains_key(h));
        }
    }
}

/// The virtio block device is a simple virtual block device (ie. disk).
///
/// Read and write requests (and other exotic requests) are placed in the queue, and serviced
/// (probably out of order) by the device except where noted.
///
/// An operation goes in steps. A request is placed in the queue; then the caller notifies the
/// device, and takes the next step with what the device returned.
pub struct VirtIOBlk<'a> {
    queue: VirtQueue<'a>,
    capacity: usize,
    req_queue: Vec<ReqCells<'a>>,
}

impl<'a> View for VirtIOBlk<'a> {
    type V = BlkModel;

    closed spec fn view(&self) -> BlkModel {
        BlkModel {
            queue: self.queue@,
            capacity: self.capacity,
            requests: ReqCells::contents(self.req_queue@),
            addrs: ReqCells::addrs(self.req_queue@),
        }
    }
}

impl<'a> VirtIOBlk<'a> {
    /// The used ring of the queue has an entry for each descriptor.
    pub closed spec fn used_fits(&self) -> bool {
        self.queue.used_fits()
    }

    /// The descriptors of the queue, each with its words.
    pub closed spec fn rows(&self) -> Seq<DescriptorCells<'a>> {
        self.queue.rows()
    }

    /// The available ring of the queue, with its words.
    pub closed spec fn avail_ring(&self) -> AvailRing<'a> {
        self.queue.avail_ring()
    }

    /// The slots for headers, each with its words.
    pub closed spec fn slots(&self) -> Seq<ReqCells<'a>> {
        self.req_queue@
    }

    /// The used ring of the queue, which the device writes.
    pub closed spec fn used_ring(&self) -> UsedRing<'a> {
        self.queue.used_ring()
    }

    /// The state of the driver is what its words contain.
    pub proof fn law_state_is_in_memory(&self)
        ensures
            self@.queue.table == DescriptorCells::contents(self.rows()),
            self@.queue.ring == self.avail_ring().entries(),
            self@.queue.ring_count == self.avail_ring().count(),
            self@.requests == ReqCells::contents(self.slots()),
            self@.addrs == ReqCells::addrs(self.slots()),
    {
        self.queue.law_state_is_in_memory();
    }

    /// Once the driver is not changed any more, its memory contains its last state for good.
    pub proof fn law_last_state_stays(self)
        requires
            has_resolved(self),
        ensures
            cell::word16(*final(self.avail_ring().idx)) == self@.queue.ring_count,
            final(self.avail_ring().ring)@.map_values(|word: Volatile<u16>| cell::word16(word))
                == self@.queue.ring,
            forall|i: int|
                0 <= i < self.rows().len() ==> {
                    let row = #[trigger] self.rows()[i];
                    self@.queue.table[i] == (DescModel {
                        addr: cell::word64(*final(row.addr)),
                        len: cell::word32(*final(row.len)),
                        flags: cell::word16(*final(row.flags)),
                        next: cell::word16(*final(row.next)),
                    })
                },
            forall|i: int|
                0 <= i < self.slots().len() ==> {
                    let slot = #[trigger] self.slots()[i];
                    self@.requests[i] == (ReqModel {
                        code: *final(slot.type_),
                        reserved: *final(slot.reserved),
                        sector: *final(slot.sector),
                    })
                },
    {
        self.queue.law_last_state_stays();
    }

    /// A read of the used ring gave this: the count and, where a chain was returned, the entry
    /// that comes next.
    pub open spec fn says(&self, used: Used) -> bool {
        &&& self.used_ring().counts(used.idx)
        &&& self@.queue.can_pop(used.idx) ==> self.used_ring().holds(
            self@.queue.used_slot(),
            used.id,
            used.len,
        )
    }

    /// The driver is in a state that it can be in, whatever the device names.
    pub open spec fn sound(&self) -> bool {
        &&& self@.sound()
        &&& self.used_fits()
    }

    /// The driver is in a state that it can be in as long as the device names nothing but tokens
    /// in flight.
    pub open spec fn wf(&self) -> bool {
        &&& self@.wf()
        &&& self.used_fits()
    }

    /// Create a new VirtIO-Blk driver. `queue_used` and `max_queue_size` are what the device says
    /// of its queue, `sectors` is the number of sectors that its configuration space gives.
    /// `headers` is memory for request headers, one for each descriptor.
    pub fn new(
        queue_used: bool,
        max_queue_size: u32,
        sectors: u64,
        memory: QueueMemory<'a>,
        headers: Vec<ReqCells<'a>>,
    ) -> (blk: Result<Self, Error>)
        requires
            QueuePlan::refusal(queue_used, max_queue_size, QUEUE_SIZE as u16) is None
                ==> memory.fits(QUEUE_SIZE as int) && headers@.len() == QUEUE_SIZE,
        ensures
            match QueuePlan::refusal(queue_used, max_queue_size, QUEUE_SIZE as u16) {
                Some(error) => blk == Err::<Self, Error>(error),
                None => {
                    &&& blk matches Ok(b)
                    &&& b.wf()
                    &&& b.used_ring() == memory.used
                    &&& *final(b.avail_ring().idx) == *final(memory.avail.idx)
                    &&& final(b.avail_ring().ring)@ == final(memory.avail.ring)@
                    &&& b.rows().len() == QUEUE_SIZE
                    &&& forall|i: int|
                        0 <= i < memory.desc@.len() ==> {
                            let row = #[trigger] b.rows()[i];
                            &&& *final(row.addr) == *final(memory.desc@[i].addr)
                            &&& *final(row.len) == *final(memory.desc@[i].len)
                            &&& *final(row.flags) == *final(memory.desc@[i].flags)
                            &&& *final(row.next) == *final(memory.desc@[i].next)
                        }
                    &&& b.slots().len() == QUEUE_SIZE
                    &&& forall|i: int|
                        0 <= i < headers@.len() ==> {
                            let slot = #[trigger] b.slots()[i];
                            &&& slot.addr == headers@[i].addr
                            &&& *final(slot.type_) == *final(headers@[i].type_)
                            &&& *final(slot.reserved) == *final(headers@[i].reserved)
                            &&& *final(slot.sector) == *final(headers@[i].sector)
                        }
                    &&& b@ == (BlkModel {
                        queue: QueueModel::fresh(
                            REQUEST_QUEUE,
                            QUEUE_SIZE as u16,
                            DescriptorCells::contents(memory.desc@),
                            memory.avail.entries(),
                            memory.avail.count(),
                        ),
                        capacity: sectors as usize,
                        requests: Seq::new(
                            QUEUE_SIZE as nat,
                            |i: int| ReqModel::about(ReqType::In, 0),
                        ),
                        addrs: ReqCells::addrs(headers@),
                    })
                },
            },
            blk is Ok <==> !queue_used && 16 <= max_queue_size,
            queue_used ==> blk == Err::<Self, Error>(Error::AlreadyUsed),
            !queue_used && blk is Err ==> blk == Err::<Self, Error>(Error::InvalidParam),
    {
        proof {
            crate::effects::lemma_sixteen_is_pow2();
        }
        let queue = VirtQueue::new(
            queue_used,
            max_queue_size,
            REQUEST_QUEUE as usize,
            QUEUE_SIZE as u16,
            memory,
        )?;
        let ghost cells = headers@;
        let ghost addrs = ReqCells::addrs(cells);
        let mut req_queue = headers;
        let mut i: usize = 0;
        while i < QUEUE_SIZE
            invariant
                i <= QUEUE_SIZE,
                req_queue@.len() == QUEUE_SIZE,
                cells.len() == QUEUE_SIZE,
                forall|j: int|
                    0 <= j < cells.len() ==> {
                        let slot = #[trigger] req_queue@[j];
                        &&& *final(slot.type_) == *final(cells[j].type_)
                        &&& *final(slot.reserved) == *final(cells[j].reserved)
                        &&& *final(slot.sector) == *final(cells[j].sector)
                    },
                addrs.len() == QUEUE_SIZE,
                forall|j: int| 0 <= j < QUEUE_SIZE ==> (#[trigger] req_queue@[j]).addr == addrs[j],
                forall|j: int|
                    0 <= j < i ==> #[trigger] req_queue@[j]@ == ReqModel::about(ReqType::In, 0),
            decreases QUEUE_SIZE - i,
        {
            req_queue[i].set(BlkReq::new(ReqType::In, 0));
            i = i + 1;
        }
        let blk = VirtIOBlk {
            queue,
            capacity: #[verifier::truncate]
            (sectors as usize),
            req_queue,
        };
        assert(blk@.requests =~= Seq::new(
            QUEUE_SIZE as nat,
            |i: int| ReqModel::about(ReqType::In, 0),
        ));
        assert(blk@.addrs =~= addrs);
        Ok(blk)
    }

    /// The slot of the next request.
    pub fn next_slot(&self) -> (slot: usize)
        ensures
            slot == self@.queue.free_head,
    {
        self.queue.get_desc_idx()
    }

    /// Whether the next request has a slot for its header. It has one, unless the device named
    /// what was not in flight.
    pub fn has_slot(&self) -> (yes: bool)
        ensures
            yes == self@.has_slot(),
    {
        self.next_slot() < QUEUE_SIZE
    }

    /// Whether the free list stays in the table for the next request, where there is room for it.
    /// It does, unless the device named what was not in flight.
    pub fn reaches(&self) -> (yes: bool)
        requires
            self.sound(),
        ensures
            yes == self@.reaches(),
    {
        self.queue.available_desc() < REQUEST_DESCS || self.queue.reaches(REQUEST_DESCS)
    }

    /// The request header in a slot.
    pub fn request(&self, slot: usize) -> (req: &ReqCells<'a>)
        requires
            self.sound(),
            slot < QUEUE_SIZE,
        ensures
            *req == self.slots()[slot as int],
            req@ == self@.requests[slot as int],
            req.addr == self@.addrs[slot as int],
    {
        &self.req_queue[slot]
    }

    /// Put a chain into the queue.
    fn enqueue(&mut self, inputs: &[Buffer], outputs: &[Buffer], wait: bool) -> (op: Operation)
        requires
            old(self).sound(),
            old(self)@.reaches(),
            inputs@.len() + outputs@.len() == REQUEST_DESCS,
        ensures
            final(self).sound(),
            old(self).wf() ==> final(self).wf(),
            final(self).used_ring() == old(self).used_ring(),
            *final(final(self).avail_ring().idx) == *final(old(self).avail_ring().idx),
            final(final(self).avail_ring().ring)@ == final(old(self).avail_ring().ring)@,
            forall|i: int|
                0 <= i < old(self).rows().len() ==> {
                    let row = #[trigger] final(self).rows()[i];
                    &&& *final(row.addr) == *final(old(self).rows()[i].addr)
                    &&& *final(row.len) == *final(old(self).rows()[i].len)
                    &&& *final(row.flags) == *final(old(self).rows()[i].flags)
                    &&& *final(row.next) == *final(old(self).rows()[i].next)
                },
            final(self).slots() == old(self).slots(),
            op == old(self)@.started(wait),
            final(self)@ == old(self)@.queued(inputs@, outputs@),
    {
        let added = self.queue.add(inputs, outputs);
        proof {
            assert(self@ =~= old(self)@.queued(inputs@, outputs@));
            if old(self).wf() {
                lemma_queued_wf(old(self)@, inputs@, outputs@);
            }
        }
        let phase = match added {
            Ok(_) => Phase::Offered,
            Err(error) => Phase::Over(Outcome::Failed(error)),
        };
        Operation { wait, queue: REQUEST_QUEUE, phase }
    }

    /// The header of a request stands in memory: with the caller who waits, or in the next slot.
    spec fn written(&self, header: Option<&ReqCells>, type_: ReqType, block_id: usize) -> bool {
        match header {
            Some(req) => req@ == ReqModel::about(type_, block_id),
            None => self@.has_slot() && self@.requests[self@.queue.free_head as int]
                == ReqModel::about(type_, block_id),
        }
    }

    /// Where the device finds the header of a request.
    spec fn addr_of(&self, header: Option<&ReqCells>) -> usize {
        match header {
            Some(req) => req.addr,
            None => self@.slot_addr(),
        }
    }

    /// Where the device finds the header of a request.
    fn header_addr(&self, header: Option<&ReqCells>) -> (addr: usize)
        requires
            self.sound(),
            header is None ==> self@.has_slot(),
        ensures
            addr == self.addr_of(header),
    {
        match header {
            Some(req) => req.addr,
            None => self.request(self.next_slot()).addr,
        }
    }

    /// Put the chain of a request to read a block into the queue, once its header is written
    /// and its response is not ready. A caller who waits has the header.
    fn enqueue_read(
        &mut self,
        header: Option<&ReqCells>,
        Ghost(block_id): Ghost<usize>,
        buf: Buffer,
        resp: &BlkResp,
        resp_addr: usize,
    ) -> (op: Operation)
        requires
            old(self).sound(),
            old(self)@.reaches(),
            old(self).written(header, ReqType::In, block_id),
            resp.status == RespStatus::NotReady.number(),
        ensures
            final(self).sound(),
            old(self).wf() ==> final(self).wf(),
            final(self).used_ring() == old(self).used_ring(),
            *final(final(self).avail_ring().idx) == *final(old(self).avail_ring().idx),
            final(final(self).avail_ring().ring)@ == final(old(self).avail_ring().ring)@,
            forall|i: int|
                0 <= i < old(self).rows().len() ==> {
                    let row = #[trigger] final(self).rows()[i];
                    &&& *final(row.addr) == *final(old(self).rows()[i].addr)
                    &&& *final(row.len) == *final(old(self).rows()[i].len)
                    &&& *final(row.flags) == *final(old(self).rows()[i].flags)
                    &&& *final(row.next) == *final(old(self).rows()[i].next)
                },
            final(self).slots() == old(self).slots(),
            op == old(self)@.started(header is Some),
            final(self)@ == old(self)@.read_queued(old(self).addr_of(header), buf, resp_addr),
    {
        let req_addr: usize = self.header_addr(header);
        let inputs = [Buffer { addr: req_addr, len: REQ_BYTES }];
        let outputs = [buf, Buffer { addr: resp_addr, len: RESP_BYTES }];
        assert(inputs@ =~= BlkModel::read_inputs(req_addr));
        assert(outputs@ =~= BlkModel::read_outputs(buf, resp_addr));
        self.enqueue(&inputs, &outputs, header.is_some())
    }

    /// Put the chain of a request to write a block into the queue, once its header is written
    /// and its response is not ready. A caller who waits has the header.
    fn enqueue_write(
        &mut self,
        header: Option<&ReqCells>,
        Ghost(block_id): Ghost<usize>,
        buf: Buffer,
        resp: &BlkResp,
        resp_addr: usize,
    ) -> (op: Operation)
        requires
            old(self).sound(),
            old(self)@.reaches(),
            old(self).written(header, ReqType::Out, block_id),
            resp.status == RespStatus::NotReady.number(),
        ensures
            final(self).sound(),
            old(self).wf() ==> final(self).wf(),
            final(self).used_ring() == old(self).used_ring(),
            *final(final(self).avail_ring().idx) == *final(old(self).avail_ring().idx),
            final(final(self).avail_ring().ring)@ == final(old(self).avail_ring().ring)@,
            forall|i: int|
                0 <= i < old(self).rows().len() ==> {
                    let row = #[trigger] final(self).rows()[i];
                    &&& *final(row.addr) == *final(old(self).rows()[i].addr)
                    &&& *final(row.len) == *final(old(self).rows()[i].len)
                    &&& *final(row.flags) == *final(old(self).rows()[i].flags)
                    &&& *final(row.next) == *final(old(self).rows()[i].next)
                },
            final(self).slots() == old(self).slots(),
            op == old(self)@.started(header is Some),
            final(self)@ == old(self)@.write_queued(old(self).addr_of(header), buf, resp_addr),
    {
        let req_addr: usize = self.header_addr(header);
        let inputs = [Buffer { addr: req_addr, len: REQ_BYTES }, buf];
        let outputs = [Buffer { addr: resp_addr, len: RESP_BYTES }];
        assert(inputs@ =~= BlkModel::write_inputs(req_addr, buf));
        assert(outputs@ =~= BlkModel::write_outputs(resp_addr));
        self.enqueue(&inputs, &outputs, header.is_some())
    }

    /// Put a header into the slot of the first free descriptor.
    fn store(&mut self, req: BlkReq)
        requires
            old(self).sound(),
            old(self)@.has_slot(),
        ensures
            final(self).sound(),
            old(self).wf() ==> final(self).wf(),
            final(self).used_ring() == old(self).used_ring(),
            final(self).avail_ring() == old(self).avail_ring(),
            final(self).rows() == old(self).rows(),
            forall|i: int|
                0 <= i < old(self).slots().len() ==> {
                    let slot = #[trigger] final(self).slots()[i];
                    &&& *final(slot.type_) == *final(old(self).slots()[i].type_)
                    &&& *final(slot.reserved) == *final(old(self).slots()[i].reserved)
                    &&& *final(slot.sector) == *final(old(self).slots()[i].sector)
                },
            final(self)@ == (BlkModel {
                requests: old(self)@.requests.update(old(self)@.queue.free_head as int, req@),
                ..old(self)@
            }),
    {
        let idx: usize = self.queue.get_desc_idx();
        self.req_queue[idx].set(req);
        assert(self@.requests =~= old(self)@.requests.update(
            old(self)@.queue.free_head as int,
            req@,
        ));
        assert(self@.addrs =~= old(self)@.addrs);
    }

    /// Read a block and wait for it. The header is written to the caller's memory; the
    /// response, at `resp_addr`, is not ready until the device writes it.
    pub fn read_block(
        &mut self,
        block_id: usize,
        req: ReqCells,
        buf: Buffer,
        resp: &mut BlkResp,
        resp_addr: usize,
    ) -> (op: Operation)
        requires
            old(self).sound(),
            old(self).wf() || old(self)@.reaches(),
            buf.len == BLK_SIZE,
        ensures
            final(self).sound(),
            old(self).wf() ==> final(self).wf(),
            final(self).used_ring() == old(self).used_ring(),
            *final(final(self).avail_ring().idx) == *final(old(self).avail_ring().idx),
            final(final(self).avail_ring().ring)@ == final(old(self).avail_ring().ring)@,
            forall|i: int|
                0 <= i < old(self).rows().len() ==> {
                    let row = #[trigger] final(self).rows()[i];
                    &&& *final(row.addr) == *final(old(self).rows()[i].addr)
                    &&& *final(row.len) == *final(old(self).rows()[i].len)
                    &&& *final(row.flags) == *final(old(self).rows()[i].flags)
                    &&& *final(row.next) == *final(old(self).rows()[i].next)
                },
            final(self).slots() == old(self).slots(),
            op == old(self)@.started(true),
            final(self)@ == old(self)@.read_queued(req.addr, buf, resp_addr),
            *final(req.type_) == ReqType::In.number(),
            *final(req.reserved) == 0,
            *final(req.sector) == block_id as u64,
            final(resp).status == RespStatus::NotReady.number(),
    {
        proof {
            if self.wf() {
                lemma_ready(self@);
            }
        }
        let mut req = req;
        req.set(BlkReq::new(ReqType::In, block_id as u64));
        *resp = BlkResp::default();
        self.enqueue_read(Some(&req), Ghost(block_id), buf, resp, resp_addr)
    }

    /// Read a block without waiting for it. The header goes to the next slot; the response,
    /// at `resp_addr`, is not ready until the device writes it.
    pub fn read_block_non_block(
        &mut self,
        block_id: usize,
        buf: Buffer,
        resp: &mut BlkResp,
        resp_addr: usize,
    ) -> (op: Operation)
        requires
            old(self).sound(),
            old(self).wf() || old(self)@.reaches() && old(self)@.has_slot(),
            buf.len == BLK_SIZE,
        ensures
            final(self).sound(),
            old(self).wf() ==> final(self).wf(),
            final(self).used_ring() == old(self).used_ring(),
            *final(final(self).avail_ring().idx) == *final(old(self).avail_ring().idx),
            final(final(self).avail_ring().ring)@ == final(old(self).avail_ring().ring)@,
            forall|i: int|
                0 <= i < old(self).rows().len() ==> {
                    let row = #[trigger] final(self).rows()[i];
                    &&& *final(row.addr) == *final(old(self).rows()[i].addr)
                    &&& *final(row.len) == *final(old(self).rows()[i].len)
                    &&& *final(row.flags) == *final(old(self).rows()[i].flags)
                    &&& *final(row.next) == *final(old(self).rows()[i].next)
                },
            forall|i: int|
                0 <= i < old(self).slots().len() ==> {
                    let slot = #[trigger] final(self).slots()[i];
                    &&& *final(slot.type_) == *final(old(self).slots()[i].type_)
                    &&& *final(slot.reserved) == *final(old(self).slots()[i].reserved)
                    &&& *final(slot.sector) == *final(old(self).slots()[i].sector)
                },
            op == old(self)@.started(false),
            final(self)@ == old(self)@.read_requested(block_id, buf, resp_addr),
            final(resp).status == RespStatus::NotReady.number(),
    {
        proof {
            if self.wf() {
                lemma_ready(self@);
            }
        }
        self.store(BlkReq::new(ReqType::In, block_id as u64));
        *resp = BlkResp::default();
        self.enqueue_read(None, Ghost(block_id), buf, resp, resp_addr)
    }

    /// Write a block and wait for it. The header is written to the caller's memory; the
    /// response, at `resp_addr`, is not ready until the device writes it.
    pub fn write_block(
        &mut self,
        block_id: usize,
        req: ReqCells,
        buf: Buffer,
        resp: &mut BlkResp,
        resp_addr: usize,
    ) -> (op: Operation)
        requires
            old(self).sound(),
            old(self).wf() || old(self)@.reaches(),
            buf.len == BLK_SIZE,
        ensures
            final(self).sound(),
            old(self).wf() ==> final(self).wf(),
            final(self).used_ring() == old(self).used_ring(),
            *final(final(self).avail_ring().idx) == *final(old(self).avail_ring().idx),
            final(final(self).avail_ring().ring)@ == final(old(self).avail_ring().ring)@,
            forall|i: int|
                0 <= i < old(self).rows().len() ==> {
                    let row = #[trigger] final(self).rows()[i];
                    &&& *final(row.addr) == *final(old(self).rows()[i].addr)
                    &&& *final(row.len) == *final(old(self).rows()[i].len)
                    &&& *final(row.flags) == *final(old(self).rows()[i].flags)
                    &&& *final(row.next) == *final(old(self).rows()[i].next)
                },
            final(self).slots() == old(self).slots(),
            op == old(self)@.started(true),
            final(self)@ == old(self)@.write_queued(req.addr, buf, resp_addr),
            *final(req.type_) == ReqType::Out.number(),
            *final(req.reserved) == 0,
            *final(req.sector) == block_id as u64,
            final(resp).status == RespStatus::NotReady.number(),
    {
        proof {
            if self.wf() {
                lemma_ready(self@);
            }
        }
        let mut req = req;
        req.set(BlkReq::new(ReqType::Out, block_id as u64));
        *resp = BlkResp::default();
        self.enqueue_write(Some(&req), Ghost(block_id), buf, resp, resp_addr)
    }

    /// Write a block without waiting for it. The header goes to the next slot; the response,
    /// at `resp_addr`, is not ready until the device writes it.
    pub fn write_block_non_block(
        &mut self,
        block_id: usize,
        buf: Buffer,
        resp: &mut BlkResp,
        resp_addr: usize,
    ) -> (op: Operation)
        requires
            old(self).sound(),
            old(self).wf() || old(self)@.reaches() && old(self)@.has_slot(),
            buf.len == BLK_SIZE,
        ensures
            final(self).sound(),
            old(self).wf() ==> final(self).wf(),
            final(self).used_ring() == old(self).used_ring(),
            *final(final(self).avail_ring().idx) == *final(old(self).avail_ring().idx),
            final(final(self).avail_ring().ring)@ == final(old(self).avail_ring().ring)@,
            forall|i: int|
                0 <= i < old(self).rows().len() ==> {
                    let row = #[trigger] final(self).rows()[i];
                    &&& *final(row.addr) == *final(old(self).rows()[i].addr)
                    &&& *final(row.len) == *final(old(self).rows()[i].len)
                    &&& *final(row.flags) == *final(old(self).rows()[i].flags)
                    &&& *final(row.next) == *final(old(self).rows()[i].next)
                },
            forall|i: int|
                0 <= i < old(self).slots().len() ==> {
                    let slot = #[trigger] final(self).slots()[i];
                    &&& *final(slot.type_) == *final(old(self).slots()[i].type_)
                    &&& *final(slot.reserved) == *final(old(self).slots()[i].reserved)
                    &&& *final(slot.sector) == *final(old(self).slots()[i].sector)
                },
            op == old(self)@.started(false),
            final(self)@ == old(self)@.write_requested(block_id, buf, resp_addr),
            final(resp).status == RespStatus::NotReady.number(),
    {
        proof {
            if self.wf() {
                lemma_ready(self@);
            }
        }
        self.store(BlkReq::new(ReqType::Out, block_id as u64));
        *resp = BlkResp::default();
        self.enqueue_write(None, Ghost(block_id), buf, resp, resp_addr)
    }

    /// Take back the chain that the device returned, given what it says. True if there was one.
    fn collect(&mut self, used: &Used) -> (returned: bool)
        requires
            old(self).sound(),
            old(self)@.queue.plausible(*used),
        ensures
            final(self).sound(),
            old(self).wf() && old(self)@.queue.honest(*used) ==> final(self).wf(),
            final(self).used_ring() == old(self).used_ring(),
            *final(final(self).avail_ring().idx) == *final(old(self).avail_ring().idx),
            final(final(self).avail_ring().ring)@ == final(old(self).avail_ring().ring)@,
            forall|i: int|
                0 <= i < old(self).rows().len() ==> {
                    let row = #[trigger] final(self).rows()[i];
                    &&& *final(row.addr) == *final(old(self).rows()[i].addr)
                    &&& *final(row.len) == *final(old(self).rows()[i].len)
                    &&& *final(row.flags) == *final(old(self).rows()[i].flags)
                    &&& *final(row.next) == *final(old(self).rows()[i].next)
                },
            final(self).slots() == old(self).slots(),
            returned == old(self)@.queue.can_pop(used.idx),
            final(self)@ == old(self)@.collected(*used),
    {
        let popped = self.queue.pop_used_at(used);
        proof {
            assert(self@ =~= old(self)@.collected(*used));
            if old(self).wf() && old(self)@.queue.honest(*used) {
                lemma_collected_wf(old(self)@, *used);
            }
        }
        popped.is_ok()
    }

    /// Look at what the device returned, given what it says.
    pub fn look_at(&mut self, op: &mut Operation, used: &Used)
        requires
            old(self).sound(),
            old(op).wf(),
            old(op).phase is Awaited,
            old(self)@.queue.plausible(*used),
        ensures
            final(self).sound(),
            old(self).wf() && old(self)@.queue.honest(*used) ==> final(self).wf(),
            final(self).used_ring() == old(self).used_ring(),
            *final(final(self).avail_ring().idx) == *final(old(self).avail_ring().idx),
            final(final(self).avail_ring().ring)@ == final(old(self).avail_ring().ring)@,
            forall|i: int|
                0 <= i < old(self).rows().len() ==> {
                    let row = #[trigger] final(self).rows()[i];
                    &&& *final(row.addr) == *final(old(self).rows()[i].addr)
                    &&& *final(row.len) == *final(old(self).rows()[i].len)
                    &&& *final(row.flags) == *final(old(self).rows()[i].flags)
                    &&& *final(row.next) == *final(old(self).rows()[i].next)
                },
            final(self).slots() == old(self).slots(),
            final(op).wf(),
            *final(op) == old(op).after_look(old(self)@.queue.can_pop(used.idx)),
            final(self)@ == old(self)@.collected(*used),
    {
        if self.collect(used) {
            op.phase = Phase::Returned;
        } else if !op.wait {
            op.phase = Phase::Over(Outcome::WouldBlock);
        }
    }

    /// Look at what the device returned. Where nothing can be recycled from the descriptor that
    /// the device names, nothing is taken back and the operation fails.
    pub fn look(&mut self, op: &mut Operation)
        requires
            old(self).sound(),
            old(op).wf(),
            old(op).phase is Awaited,
        ensures
            final(self).sound(),
            final(self).used_ring() == old(self).used_ring(),
            *final(final(self).avail_ring().idx) == *final(old(self).avail_ring().idx),
            final(final(self).avail_ring().ring)@ == final(old(self).avail_ring().ring)@,
            forall|i: int|
                0 <= i < old(self).rows().len() ==> {
                    let row = #[trigger] final(self).rows()[i];
                    &&& *final(row.addr) == *final(old(self).rows()[i].addr)
                    &&& *final(row.len) == *final(old(self).rows()[i].len)
                    &&& *final(row.flags) == *final(old(self).rows()[i].flags)
                    &&& *final(row.next) == *final(old(self).rows()[i].next)
                },
            final(self).slots() == old(self).slots(),
            final(op).wf(),
            exists|used: Used|
                {
                    &&& #[trigger] old(self).says(used)
                    &&& old(self).wf() && old(self)@.queue.honest(used) ==> final(self).wf()
                    &&& if old(self)@.queue.plausible(used) {
                        &&& *final(op) == old(op).after_look(old(self)@.queue.can_pop(used.idx))
                        &&& final(self)@ == old(self)@.collected(used)
                    } else {
                        *final(op) == old(op).after_fault() && final(self)@ == old(self)@
                    }
                },
    {
        let used = self.queue.read_used();
        assert(old(self).says(used));
        if self.queue.plausible(&used) {
            self.look_at(op, &used);
        } else {
            op.phase = Phase::Over(Outcome::Failed(Error::IoError));
        }
    }

    /// Handle an interrupt, given what the device says: tell which request is done.
    ///
    /// The descriptor that the device names holds the address of the request's header. The header
    /// of a request that nobody waits for lies in the slot of that descriptor, and there it is
    /// read. A header elsewhere is the caller's to read.
    pub fn handle_interrupt_at(&mut self, used: &Used) -> (ready: Result<Finished, Error>)
        requires
            old(self).sound(),
            old(self)@.queue.plausible(*used),
        ensures
            final(self).sound(),
            old(self).wf() && old(self)@.queue.honest(*used) ==> final(self).wf(),
            final(self).used_ring() == old(self).used_ring(),
            *final(final(self).avail_ring().idx) == *final(old(self).avail_ring().idx),
            final(final(self).avail_ring().ring)@ == final(old(self).avail_ring().ring)@,
            forall|i: int|
                0 <= i < old(self).rows().len() ==> {
                    let row = #[trigger] final(self).rows()[i];
                    &&& *final(row.addr) == *final(old(self).rows()[i].addr)
                    &&& *final(row.len) == *final(old(self).rows()[i].len)
                    &&& *final(row.flags) == *final(old(self).rows()[i].flags)
                    &&& *final(row.next) == *final(old(self).rows()[i].next)
                },
            final(self).slots() == old(self).slots(),
            ready == old(self)@.ready(*used),
            final(self)@ == old(self)@.collected(*used),
    {
        if !self.collect(used) {
            return Err(Error::IoError);
        }
        let idx: u16 = #[verifier::truncate]
        (used.id as u16);
        proof {
            let m = old(self)@.queue;
            crate::model::lemma_walk_ends(m.table, idx, m.num_used as nat);
        }
        let desc = self.queue.get_desc(idx as usize);
        let addr: u64 = cell::read_u64(&desc.addr);
        let req = self.request(idx as usize);
        if addr == req.addr as u64 {
            Ok(Finished::Request(req.ready_block()))
        } else {
            Ok(Finished::HeaderAt(addr))
        }
    }

    /// Handle an interrupt of the device: tell which request is done. Where the device returned
    /// none, or nothing can be recycled from the descriptor that it names, nothing happens and the
    /// result is an I/O error.
    pub fn handle_interrupt(&mut self) -> (ready: Result<Finished, Error>)
        requires
            old(self).sound(),
        ensures
            final(self).sound(),
            final(self).used_ring() == old(self).used_ring(),
            *final(final(self).avail_ring().idx) == *final(old(self).avail_ring().idx),
            final(final(self).avail_ring().ring)@ == final(old(self).avail_ring().ring)@,
            forall|i: int|
                0 <= i < old(self).rows().len() ==> {
                    let row = #[trigger] final(self).rows()[i];
                    &&& *final(row.addr) == *final(old(self).rows()[i].addr)
                    &&& *final(row.len) == *final(old(self).rows()[i].len)
                    &&& *final(row.flags) == *final(old(self).rows()[i].flags)
                    &&& *final(row.next) == *final(old(self).rows()[i].next)
                },
            final(self).slots() == old(self).slots(),
            exists|used: Used|
                {
                    &&& #[trigger] old(self).says(used)
                    &&& old(self).wf() && old(self)@.queue.honest(used) ==> final(self).wf()
                    &&& if old(self)@.queue.plausible(used) {
                        &&& ready == old(self)@.ready(used)
                        &&& final(self)@ == old(self)@.collected(used)
                    } else {
                        &&& ready == Err::<Finished, Error>(Error::IoError)
                        &&& final(self)@ == old(self)@
                    }
                },
    {
        let used = self.queue.read_used();
        assert(old(self).says(used));
        if !self.queue.plausible(&used) {
            return Err(Error::IoError);
        }
        self.handle_interrupt_at(&used)
    }
}

} // verus!
