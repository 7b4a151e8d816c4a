//! What holds of the block driver over any number of operations.
use crate::blk::{BlkModel, QUEUE_SIZE, REQUEST_DESCS};
use crate::descriptor::{Buffer, DescModel};
use crate::error::Error;
use crate::flags::DescFlags;
use crate::model::QueueModel;
use crate::operation::{Action, Operation, Outcome, Phase};
use crate::request::{BlkResp, Finished, ReadyBlock, ReqModel, ReqType, RespStatus, BLK_SIZE};
use crate::ring::Used;
use vstd::prelude::*;

verus! {

/// There is always a free descriptor, so the next request has a slot of its own: none that
/// belongs to a chain in flight. Where there is room, it has descriptors too.
pub proof fn law_slot_is_free(m: BlkModel)
    requires
        m.wf(),
    ensures
        m.has_slot(),
        m.reaches(),
        m.queue.free.len() > 0,
        !crate::model::in_some_chain(m.queue.chains, m.queue.free_head),
{
    crate::blk::lemma_ready(m);
    assert(m.queue.free.contains(m.queue.free_head));
    crate::laws::law_partition(m.queue, m.queue.free_head);
}

/// The driver has room for a request as long as fewer than five are in flight.
pub proof fn law_five_in_flight(m: BlkModel)
    requires
        m.wf(),
    ensures
        m.queue.chains.dom().len() <= 5,
        m.has_room() == (m.queue.chains.dom().len() < 5),
{
}

/// What the device finds of a request to read: a header and behind it a block and a status that
/// the device writes. The driver keeps the header only of a request that nobody waits for.
pub proof fn law_read_chain(
    m: BlkModel,
    block_id: usize,
    req_addr: usize,
    buf: Buffer,
    resp_addr: usize,
)
    requires
        m.wf(),
        m.has_room(),
        buf.len == BLK_SIZE,
    ensures
        ({
            let p = m.read_queued(req_addr, buf, resp_addr);
            let q = m.read_requested(block_id, buf, resp_addr);
            let chain = crate::model::walk(p.queue.table, m.queue.free_head, QUEUE_SIZE as nat);
            &&& p.queue.ring[m.queue.avail_slot()] == m.queue.free_head
            &&& chain.len() == REQUEST_DESCS
            &&& p.queue.table[chain[0] as int] == (DescModel {
                addr: req_addr as u64,
                len: 16,
                flags: 1,
                next: chain[1],
            })
            &&& p.queue.table[chain[1] as int] == (DescModel {
                addr: buf.addr as u64,
                len: 512,
                flags: 3,
                next: chain[2],
            })
            &&& p.queue.table[chain[2] as int].addr == resp_addr as u64
            &&& p.queue.table[chain[2] as int].len == 1
            &&& p.queue.table[chain[2] as int].flags == 2
            &&& p.requests == m.requests
            &&& q.queue == m.read_queued(m.slot_addr(), buf, resp_addr).queue
            &&& q.requests[m.queue.free_head as int] == ReqModel::about(ReqType::In, block_id)
        }),
{
    let inputs = BlkModel::read_inputs(req_addr);
    let outputs = BlkModel::read_outputs(buf, resp_addr);
    lemma_request_chain(m, inputs, outputs);
    assert((inputs + outputs) =~= seq![
        Buffer { addr: req_addr, len: 16 },
        buf,
        Buffer { addr: resp_addr, len: 1 },
    ]);
}

/// What the device finds of a request to write: a header and a block, and behind them a status
/// that the device writes. The driver keeps the header only of a request that nobody waits for.
pub proof fn law_write_chain(
    m: BlkModel,
    block_id: usize,
    req_addr: usize,
    buf: Buffer,
    resp_addr: usize,
)
    requires
        m.wf(),
        m.has_room(),
        buf.len == BLK_SIZE,
    ensures
        ({
            let p = m.write_queued(req_addr, buf, resp_addr);
            let q = m.write_requested(block_id, buf, resp_addr);
            let chain = crate::model::walk(p.queue.table, m.queue.free_head, QUEUE_SIZE as nat);
            &&& p.queue.ring[m.queue.avail_slot()] == m.queue.free_head
            &&& chain.len() == REQUEST_DESCS
            &&& p.queue.table[chain[0] as int] == (DescModel {
                addr: req_addr as u64,
                len: 16,
                flags: 1,
                next: chain[1],
            })
            &&& p.queue.table[chain[1] as int] == (DescModel {
                addr: buf.addr as u64,
                len: 512,
                flags: 1,
                next: chain[2],
            })
            &&& p.queue.table[chain[2] as int].addr == resp_addr as u64
            &&& p.queue.table[chain[2] as int].len == 1
            &&& p.queue.table[chain[2] as int].flags == 2
            &&& p.requests == m.requests
            &&& q.queue == m.write_queued(m.slot_addr(), buf, resp_addr).queue
            &&& q.requests[m.queue.free_head as int] == ReqModel::about(ReqType::Out, block_id)
        }),
{
    let inputs = BlkModel::write_inputs(req_addr, buf);
    let outputs = BlkModel::write_outputs(resp_addr);
    lemma_request_chain(m, inputs, outputs);
    assert((inputs + outputs) =~= seq![
        Buffer { addr: req_addr, len: 16 },
        buf,
        Buffer { addr: resp_addr, len: 1 },
    ]);
}

proof fn lemma_request_chain(m: BlkModel, inputs: Seq<Buffer>, outputs: Seq<Buffer>)
    requires
        m.wf(),
        m.has_room(),
        inputs.len() + outputs.len() == REQUEST_DESCS,
    ensures
        m.queue.free_head < QUEUE_SIZE,
        ({
            let p = m.queued(inputs, outputs);
            let chain = crate::model::walk(p.queue.table, m.queue.free_head, QUEUE_SIZE as nat);
            &&& p.queue.ring[m.queue.avail_slot()] == m.queue.free_head
            &&& chain.len() == REQUEST_DESCS
            &&& forall|j: int|
                0 <= j < REQUEST_DESCS ==> {
                    let d = p.queue.table[#[trigger] chain[j] as int];
                    &&& d.addr == (inputs + outputs)[j].addr as u64
                    &&& d.len == (inputs + outputs)[j].len as u32
                    &&& d.flags == DescFlags::of(j >= inputs.len(), j + 1 == REQUEST_DESCS)
                    &&& j + 1 < REQUEST_DESCS ==> d.next == chain[j + 1]
                }
        }),
{
    let p = m.queued(inputs, outputs);
    crate::blk::lemma_queued_wf(m, inputs, outputs);
    crate::laws::law_device_finds_buffers(m.queue, inputs, outputs);
    crate::laws::law_device_finds_chain(p.queue, m.queue.free_head);
    let chain = crate::model::walk(p.queue.table, m.queue.free_head, QUEUE_SIZE as nat);
    assert(p.queue.chain_wf(m.queue.free_head));
    assert forall|j: int| 0 <= j < REQUEST_DESCS implies {
        let d = p.queue.table[#[trigger] chain[j] as int];
        &&& d.addr == (inputs + outputs)[j].addr as u64
        &&& d.len == (inputs + outputs)[j].len as u32
        &&& d.flags == DescFlags::of(j >= inputs.len(), j + 1 == REQUEST_DESCS)
        &&& j + 1 < REQUEST_DESCS ==> d.next == chain[j + 1]
    } by {
        let d = p.queue.table[chain[j] as int];
    }
}

/// A request that the caller waits for and that is refused for want of room leaves the driver as
/// it is.
pub proof fn law_refused_changes_nothing(
    m: BlkModel,
    req_addr: usize,
    buf: Buffer,
    resp_addr: usize,
)
    requires
        m.wf(),
        !m.has_room(),
    ensures
        m.read_queued(req_addr, buf, resp_addr) == m,
        m.write_queued(req_addr, buf, resp_addr) == m,
        m.started(true).phase == Phase::Over(Outcome::Failed(Error::BufferTooSmall)),
{
}

/// Once the chain of the request that came last is taken back, everything is given back: the same
/// descriptors are free, in the same order, the same chains are in flight and the headers are as
/// the request left them. A request that the caller waits for leaves them as they were.
pub proof fn law_completion_gives_back(
    m: BlkModel,
    inputs: Seq<Buffer>,
    outputs: Seq<Buffer>,
    used: Used,
)
    requires
        m.wf(),
        m.has_room(),
        inputs.len() + outputs.len() == REQUEST_DESCS,
        m.queue.can_pop(used.idx),
        QueueModel::token(used) == m.queue.free_head,
    ensures
        ({
            let p = m.queued(inputs, outputs);
            let q = p.collected(used);
            &&& p.queue.plausible(used)
            &&& q.wf()
            &&& q.queue.free == m.queue.free
            &&& q.queue.free_head == m.queue.free_head
            &&& q.queue.chains == m.queue.chains
            &&& q.requests == m.requests
            &&& q.addrs == m.addrs
            &&& q.capacity == m.capacity
            &&& used.idx == (m.queue.last_used_idx + 1) % 0x1_0000 ==> !q.queue.can_pop(used.idx)
        }),
{
    crate::blk::lemma_queued_wf(m, inputs, outputs);
    crate::blk::lemma_collected_wf(m.queued(inputs, outputs), used);
    crate::laws::law_pop_undoes_add(m.queue, inputs, outputs, used);
}

/// One step of the driver: a request, accepted or refused, with or without a header to keep.
pub open spec fn requests(pre: BlkModel, post: BlkModel) -> bool {
    exists|req: ReqModel, inputs: Seq<Buffer>, outputs: Seq<Buffer>|
        #![trigger pre.requested(req, inputs, outputs)]
        inputs.len() + outputs.len() == REQUEST_DESCS && (post == pre.requested(
            req,
            inputs,
            outputs,
        ) || post == pre.queued(inputs, outputs))
}

/// One step of the driver: a look at what the device returned, which is nothing or a token in
/// flight, and not the given token. What cannot be acted on leaves the driver as it is.
pub open spec fn looks(pre: BlkModel, post: BlkModel, token: u16) -> bool {
    ||| post == pre
    ||| exists|used: Used|
        pre.queue.honest(used) && (pre.queue.can_pop(used.idx) ==> QueueModel::token(used)
            != token) && post == #[trigger] pre.collected(used)
}

/// State `i` leads to the next one by a step that does not take back the given token.
pub open spec fn steps_at(states: Seq<BlkModel>, token: u16, i: int) -> bool {
    requests(states[i], states[i + 1]) || looks(states[i], states[i + 1], token)
}

/// A history of the driver in which the given token is not taken back.
pub open spec fn pending(states: Seq<BlkModel>, token: u16) -> bool {
    forall|i: int| 0 <= i < states.len() - 1 ==> #[trigger] steps_at(states, token, i)
}

/// A request keeps its chain, its buffers and its header.
pub open spec fn keeps_request(pre: BlkModel, post: BlkModel, token: u16) -> bool {
    &&& post.queue.chains.contains_key(token)
    &&& post.queue.chains[token] == pre.queue.chains[token]
    &&& post.requests[token as int] == pre.requests[token as int]
    &&& post.addrs == pre.addrs
    &&& forall|j: int|
        0 <= j < pre.queue.chains[token].len()
            ==> post.queue.table[#[trigger] pre.queue.chains[token][j] as int]
            == pre.queue.table[pre.queue.chains[token][j] as int]
}

proof fn lemma_step_keeps_request(pre: BlkModel, post: BlkModel, token: u16)
    requires
        pre.wf(),
        pre.queue.chains.contains_key(token),
        requests(pre, post) || looks(pre, post, token),
    ensures
        post.wf(),
        keeps_request(pre, post, token),
{
    let chain = pre.queue.chains[token];
    assert(pre.queue.chain_wf(token));
    assert(chain[0] == token);
    if requests(pre, post) {
        let (req, inputs, outputs) = choose|
            req: ReqModel,
            inputs: Seq<Buffer>,
            outputs: Seq<Buffer>,
        |
            #![trigger pre.requested(req, inputs, outputs)]
            inputs.len() + outputs.len() == REQUEST_DESCS && (post == pre.requested(
                req,
                inputs,
                outputs,
            ) || post == pre.queued(inputs, outputs));
        crate::blk::lemma_queued_wf(pre, inputs, outputs);
        assert(pre.requested(req, inputs, outputs).wf());
        assert(pre.queue.free_head != token);
        if pre.has_room() {
            crate::model::lemma_filled_table(pre.queue, inputs, outputs);
            let taken = pre.queue.free.take(REQUEST_DESCS as int);
            assert forall|j: int|
                0 <= j < chain.len() implies post.queue.table[#[trigger] chain[j] as int]
                == pre.queue.table[chain[j] as int] by {
                assert(!taken.contains(chain[j]));
            }
        }
    } else if post != pre {
        let used = choose|used: Used|
            pre.queue.honest(used) && (pre.queue.can_pop(used.idx) ==> QueueModel::token(used)
                != token) && post == #[trigger] pre.collected(used);
        crate::blk::lemma_collected_wf(pre, used);
        if pre.queue.can_pop(used.idx) {
            let other = QueueModel::token(used);
            assert(pre.queue.chains.contains_key(other) && pre.queue.chain_wf(other));
            crate::model::lemma_in_flight(pre.queue, other);
            let gone = pre.queue.chains[other];
            assert(crate::model::disjoint(gone, chain));
            assert forall|j: int|
                0 <= j < chain.len() implies post.queue.table[#[trigger] chain[j] as int]
                == pre.queue.table[chain[j] as int] by {
                assert(gone[gone.len() - 1] != chain[j]);
            }
        }
    }
}

/// As long as a request is in flight, nothing touches its chain, its buffers or its header,
/// whatever else is requested and taken back.
pub proof fn law_request_survives(states: Seq<BlkModel>, token: u16)
    requires
        states.len() > 0,
        states[0].wf(),
        states[0].queue.chains.contains_key(token),
        pending(states, token),
    ensures
        states.last().wf(),
        keeps_request(states[0], states.last(), token),
    decreases states.len(),
{
    if states.len() > 1 {
        let before = states.drop_last();
        let k = states.len() - 2;
        assert(pending(before, token)) by {
            assert forall|i: int| 0 <= i < before.len() - 1 implies #[trigger] steps_at(
                before,
                token,
                i,
            ) by {
                assert(steps_at(states, token, i));
            }
        }
        law_request_survives(before, token);
        assert(before.last() == states[k]);
        assert(steps_at(states, token, k));
        lemma_step_keeps_request(states[k], states[k + 1], token);
    }
}

/// An interrupt tells of the request that it is about: when the device returns the token of a
/// request to read a block that nobody waits for, whatever happened since, the driver reports that
/// this block was read.
pub proof fn law_interrupt_reports_read(
    m: BlkModel,
    block_id: usize,
    buf: Buffer,
    resp_addr: usize,
    states: Seq<BlkModel>,
    used: Used,
)
    requires
        m.wf(),
        m.has_room(),
        buf.len == BLK_SIZE,
        states.len() > 0,
        states[0] == m.read_requested(block_id, buf, resp_addr),
        pending(states, m.queue.free_head),
        states.last().queue.can_pop(used.idx),
        QueueModel::token(used) == m.queue.free_head,
    ensures
        states.last().queue.plausible(used),
        states.last().ready(used) == Ok::<Finished, Error>(
            Finished::Request(ReadyBlock::Read(block_id)),
        ),
        states.last().queue.table[m.queue.free_head as int].addr == m.slot_addr() as u64,
{
    let inputs = BlkModel::read_inputs(m.slot_addr());
    let outputs = BlkModel::read_outputs(buf, resp_addr);
    crate::blk::lemma_queued_wf(m, inputs, outputs);
    assert(m.requested(ReqModel::about(ReqType::In, block_id), inputs, outputs).wf());
    law_read_chain(m, block_id, m.slot_addr(), buf, resp_addr);
    lemma_header_survives(m, states);
}

/// The same for a request to write a block.
pub proof fn law_interrupt_reports_write(
    m: BlkModel,
    block_id: usize,
    buf: Buffer,
    resp_addr: usize,
    states: Seq<BlkModel>,
    used: Used,
)
    requires
        m.wf(),
        m.has_room(),
        buf.len == BLK_SIZE,
        states.len() > 0,
        states[0] == m.write_requested(block_id, buf, resp_addr),
        pending(states, m.queue.free_head),
        states.last().queue.can_pop(used.idx),
        QueueModel::token(used) == m.queue.free_head,
    ensures
        states.last().queue.plausible(used),
        states.last().ready(used) == Ok::<Finished, Error>(
            Finished::Request(ReadyBlock::Write(block_id)),
        ),
        states.last().queue.table[m.queue.free_head as int].addr == m.slot_addr() as u64,
{
    let inputs = BlkModel::write_inputs(m.slot_addr(), buf);
    let outputs = BlkModel::write_outputs(resp_addr);
    crate::blk::lemma_queued_wf(m, inputs, outputs);
    assert(m.requested(ReqModel::about(ReqType::Out, block_id), inputs, outputs).wf());
    law_write_chain(m, block_id, m.slot_addr(), buf, resp_addr);
    lemma_header_survives(m, states);
}

/// When the device returns the token of a request that the caller waits for, whatever happened
/// since, an interrupt tells where the header of this request lies.
pub proof fn law_interrupt_tells_header(
    m: BlkModel,
    req_addr: usize,
    buf: Buffer,
    resp_addr: usize,
    states: Seq<BlkModel>,
    used: Used,
)
    requires
        m.wf(),
        m.has_room(),
        buf.len == BLK_SIZE,
        req_addr != m.slot_addr(),
        states.len() > 0,
        states[0] == m.read_queued(req_addr, buf, resp_addr) || states[0] == m.write_queued(
            req_addr,
            buf,
            resp_addr,
        ),
        pending(states, m.queue.free_head),
        states.last().queue.can_pop(used.idx),
        QueueModel::token(used) == m.queue.free_head,
    ensures
        states.last().queue.plausible(used),
        states.last().ready(used) == Ok::<Finished, Error>(Finished::HeaderAt(req_addr as u64)),
{
    crate::blk::lemma_queued_wf(
        m,
        BlkModel::read_inputs(req_addr),
        BlkModel::read_outputs(buf, resp_addr),
    );
    crate::blk::lemma_queued_wf(
        m,
        BlkModel::write_inputs(req_addr, buf),
        BlkModel::write_outputs(resp_addr),
    );
    law_read_chain(m, 0, req_addr, buf, resp_addr);
    law_write_chain(m, 0, req_addr, buf, resp_addr);
    lemma_header_survives(m, states);
}

proof fn lemma_header_survives(m: BlkModel, states: Seq<BlkModel>)
    requires
        m.wf(),
        states.len() > 0,
        states[0].wf(),
        states[0].queue.chains.contains_key(m.queue.free_head),
        pending(states, m.queue.free_head),
    ensures
        states.last().queue.recyclable(m.queue.free_head),
        states.last().addrs == states[0].addrs,
        states.last().requests[m.queue.free_head as int]
            == states[0].requests[m.queue.free_head as int],
        states.last().queue.table[m.queue.free_head as int]
            == states[0].queue.table[m.queue.free_head as int],
{
    let token = m.queue.free_head;
    law_request_survives(states, token);
    crate::model::lemma_in_flight(states.last().queue, token);
    assert(states[0].queue.chain_wf(token));
    assert(states[0].queue.chains[token][0] == token);
}

/// One step of an operation: the caller did what the operation asked for.
pub open spec fn advances(pre: Operation, post: Operation) -> bool {
    match pre.next_action() {
        Action::Notify(_) => post == pre.after_notify(),
        Action::Look => post == pre.after_look(true) || post == pre.after_look(false) || post
            == pre.after_fault(),
        Action::ReadStatus => exists|resp: BlkResp| post == #[trigger] pre.after_status(resp),
        Action::Return(_) => false,
    }
}

/// Operation `i` leads to the next one by a step.
pub open spec fn advances_at(ops: Seq<Operation>, i: int) -> bool {
    advances(ops[i], ops[i + 1])
}

/// A course of an operation from the accepted request on.
pub open spec fn course(ops: Seq<Operation>) -> bool {
    &&& ops.len() > 0
    &&& ops[0].phase is Offered
    &&& forall|i: int| 0 <= i < ops.len() - 1 ==> #[trigger] advances_at(ops, i)
}

/// How far operation `i` of a course is, and what came before it.
proof fn lemma_course(ops: Seq<Operation>, i: int)
    requires
        course(ops),
        0 <= i < ops.len(),
    ensures
        ops[i].wait == ops[0].wait,
        i == 0 ==> ops[i].phase is Offered,
        i == 1 ==> ops[i].phase is Awaited,
        i > 0 ==> !(ops[i].phase is Offered),
        i > 1 && ops[i].phase is Awaited ==> ops[i - 1].phase is Awaited && ops[0].wait,
        ops[i].phase is Returned ==> i > 1 && ops[i - 1].phase is Awaited,
        ops[i].phase is Over && i + 1 == ops.len() && ops[i].phase == Phase::Over(Outcome::Done)
            ==> i > 0 && ops[i - 1].phase is Returned && exists|resp: BlkResp|
            ops[i] == #[trigger] ops[i - 1].after_status(resp) && resp.status
                == RespStatus::Success.number(),
    decreases i,
{
    if i > 0 {
        lemma_course(ops, i - 1);
        assert(advances_at(ops, i - 1));
    }
}

/// An operation succeeds in one way only: the device was notified once, the driver looked until
/// the device returned a chain, and then the device's status was success. An operation that does
/// not wait looked once.
pub proof fn law_success(ops: Seq<Operation>)
    requires
        course(ops),
        ops.last().phase == Phase::Over(Outcome::Done),
    ensures
        ops.len() >= 4,
        forall|i: int| 1 <= i < ops.len() - 2 ==> (#[trigger] ops[i]).phase is Awaited,
        ops[ops.len() - 2].phase is Returned,
        exists|resp: BlkResp|
            ops.last() == #[trigger] ops[ops.len() - 2].after_status(resp) && resp.status
                == RespStatus::Success.number(),
        !ops[0].wait ==> ops.len() == 4,
{
    let n = ops.len() as int;
    lemma_course(ops, n - 1);
    lemma_course(ops, n - 2);
    lemma_awaited(ops, n - 3);
    lemma_course(ops, n - 3);
}

proof fn lemma_awaited(ops: Seq<Operation>, k: int)
    requires
        course(ops),
        1 <= k < ops.len(),
        ops[k].phase is Awaited,
    ensures
        forall|i: int| 1 <= i <= k ==> (#[trigger] ops[i]).phase is Awaited,
    decreases k,
{
    lemma_course(ops, k);
    if k > 1 {
        lemma_awaited(ops, k - 1);
    }
}

/// An operation that waits never ends because it would block.
pub proof fn law_waiting_does_not_block(ops: Seq<Operation>, i: int)
    requires
        course(ops),
        ops[0].wait,
        0 <= i < ops.len(),
    ensures
        ops[i].wf(),
        ops[i].phase != Phase::Over(Outcome::WouldBlock),
    decreases i,
{
    if i > 0 {
        law_waiting_does_not_block(ops, i - 1);
        lemma_course(ops, i - 1);
        assert(advances_at(ops, i - 1));
    }
}

/// A response that the device did not write counts as an I/O error.
pub proof fn law_unwritten_response(resp: BlkResp)
    requires
        resp.status == RespStatus::NotReady.number(),
    ensures
        resp.result() == Err::<(), Error>(Error::IoError),
{
}

} // verus!
