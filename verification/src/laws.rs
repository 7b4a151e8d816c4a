//! What holds of a queue over any number of operations.
use crate::descriptor::Buffer;
use crate::flags::DescFlags;
use crate::layout::{VirtQueueLayout, PAGE_SIZE};
use crate::model::{listed, walk, QueueModel};
use crate::ring::Used;
use vstd::prelude::*;

verus! {

/// Each descriptor is free or belongs to a chain in flight, not both, and belongs to one chain at
/// most.
pub proof fn law_partition(m: QueueModel, d: u16)
    requires
        m.wf(),
        d < m.queue_size,
    ensures
        m.free.contains(d) != crate::model::in_some_chain(m.chains, d),
        forall|g: u16, h: u16|
            m.chains.contains_key(g) && m.chains.contains_key(h) && #[trigger] m.chains[g].contains(
                d,
            ) && #[trigger] m.chains[h].contains(d) ==> g == h,
{
    assert(m.free.contains(d) || crate::model::in_some_chain(m.chains, d));
    if m.free.contains(d) && crate::model::in_some_chain(m.chains, d) {
        let h = choose|h: u16| #[trigger] m.chains.contains_key(h) && m.chains[h].contains(d);
        assert(m.chain_wf(h));
        let i = m.free.index_of(d);
        let j = m.chains[h].index_of(d);
        assert(m.free[i] != m.chains[h][j]);
    }
    assert forall|g: u16, h: u16|
        m.chains.contains_key(g) && m.chains.contains_key(h) && #[trigger] m.chains[g].contains(d)
            && #[trigger] m.chains[h].contains(d) implies g == h by {
        if g != h {
            let i = m.chains[g].index_of(d);
            let j = m.chains[h].index_of(d);
            assert(crate::model::disjoint(m.chains[g], m.chains[h]));
            assert(m.chains[g][i] != m.chains[h][j]);
        }
    }
}

/// The descriptors of all chains in flight.
pub open spec fn busy(m: QueueModel) -> Set<int> {
    Set::new(|d: int| 0 <= d < m.queue_size && crate::model::in_some_chain(m.chains, d as u16))
}

/// The free descriptors and those in flight are together all descriptors of the queue: none is
/// lost and none is made.
pub proof fn law_conservation(m: QueueModel)
    requires
        m.wf(),
    ensures
        busy(m).finite(),
        m.free.len() + busy(m).len() == m.queue_size,
{
    let n = m.queue_size as int;
    let all = vstd::set_lib::set_int_range(0, n);
    vstd::set_lib::lemma_int_range(0, n);
    m.free.unique_seq_to_set();
    let frees = m.free.to_set().map(|d: u16| d as int);
    vstd::set_lib::lemma_map_size(m.free.to_set(), frees, |d: u16| d as int);
    assert forall|d: int| 0 <= d < n implies frees.contains(d) == m.free.contains(d as u16) by {
        if m.free.contains(d as u16) {
            assert(m.free.to_set().contains(d as u16));
        }
    }
    assert(frees.subset_of(all)) by {
        assert forall|x: int| frees.contains(x) implies all.contains(x) by {
            let d = choose|d: u16| m.free.to_set().contains(d) && d as int == x;
            let i = m.free.index_of(d);
            assert(m.free[i] < n);
        }
    }
    assert(busy(m) =~= all.difference(frees)) by {
        assert forall|d: int| 0 <= d < n implies crate::model::in_some_chain(m.chains, d as u16)
            == !frees.contains(d) by {
            law_partition(m, d as u16);
        }
    }
    vstd::set_lib::lemma_len_difference(all, frees);
    vstd::set_lib::lemma_set_disjoint_lens(busy(m), frees);
    assert(busy(m) + frees =~= all);
}

/// A token is not in flight before its request is accepted, and the chains in flight before stay
/// as they are.
pub proof fn law_token_is_fresh(m: QueueModel, inputs: Seq<Buffer>, outputs: Seq<Buffer>)
    requires
        m.wf(),
        m.refusal((inputs.len() + outputs.len()) as int) is None,
    ensures
        !m.chains.contains_key(m.free_head),
        m.added(inputs, outputs).chains.contains_key(m.free_head),
        forall|h: u16| #[trigger]
            m.chains.contains_key(h) ==> m.added(inputs, outputs).chains.contains_key(h) && m.added(
                inputs,
                outputs,
            ).chains[h] == m.chains[h],
{
    if m.chains.contains_key(m.free_head) {
        assert(m.chain_wf(m.free_head));
        assert(m.free_head != m.chains[m.free_head][0]);
    }
}

/// Taking back the chain of the request that came last undoes the request: the same descriptors
/// are free, in the same order and with the same links, and the same chains are in flight.
pub proof fn law_pop_undoes_add(
    m: QueueModel,
    inputs: Seq<Buffer>,
    outputs: Seq<Buffer>,
    used: Used,
)
    requires
        m.wf(),
        m.refusal((inputs.len() + outputs.len()) as int) is None,
        QueueModel::token(used) == m.free_head,
    ensures
        m.added(inputs, outputs).popped(used).free == m.free,
        m.added(inputs, outputs).popped(used).free_head == m.free_head,
        m.added(inputs, outputs).popped(used).chains == m.chains,
        forall|d: int|
            0 <= d < m.queue_size ==> #[trigger] m.added(inputs, outputs).popped(
                used,
            ).table[d].next == m.table[d].next,
{
    let n = (inputs.len() + outputs.len()) as int;
    let p = m.added(inputs, outputs);
    let q = p.popped(used);
    let chain = m.free.take(n);
    crate::model::lemma_filled_table(m, inputs, outputs);
    crate::model::lemma_reaches(m, n as nat);
    crate::model::lemma_free_nth(m, n as nat);
    crate::model::lemma_added_wf(m, inputs, outputs);
    crate::model::lemma_in_flight(p, m.free_head);
    assert(q.free =~= m.free);
    assert(q.chains =~= m.chains);
    assert forall|d: int| 0 <= d < m.queue_size implies #[trigger] q.table[d].next
        == m.table[d].next by {
        assert(p.table[d].next == m.table[d].next);
        assert(chain.last() == m.free[n - 1]);
        assert(m.table[m.free[n - 1] as int].next == p.free_head);
    }
}

/// A device that names nothing but tokens in flight names nothing that the driver has to refuse.
pub proof fn law_honest_is_plausible(m: QueueModel, used: Used)
    requires
        m.wf(),
        m.honest(used),
    ensures
        m.plausible(used),
{
    if m.can_pop(used.idx) {
        crate::model::lemma_in_flight(m, QueueModel::token(used));
    }
}

/// Recycled descriptors are the first to be taken again.
pub proof fn law_recycled_first(m: QueueModel, used: Used)
    requires
        m.wf(),
        m.chains.contains_key(QueueModel::token(used)),
    ensures
        m.popped(used).free_head == QueueModel::token(used),
        m.popped(used).free.take(m.chains[QueueModel::token(used)].len() as int)
            == m.chains[QueueModel::token(used)],
{
    crate::model::lemma_in_flight(m, QueueModel::token(used));
    assert(m.popped(used).free.take(m.chains[QueueModel::token(used)].len() as int)
        =~= m.chains[QueueModel::token(used)]);
}

/// A device that starts at a token in flight visits the chain of that token, in order, and
/// nothing else.
pub proof fn law_device_finds_chain(m: QueueModel, token: u16)
    requires
        m.wf(),
        m.chains.contains_key(token),
    ensures
        walk(m.table, token, m.queue_size as nat) == m.chains[token],
{
    assert(m.chain_wf(token));
    let chain = m.chains[token];
    crate::model::lemma_distinct_len(chain, m.queue_size as nat);
    crate::model::lemma_walk(m.table, chain, 0, m.queue_size as nat);
    assert(chain.skip(0) =~= chain);
}

/// The list that starts at the head of the free descriptors holds the free descriptors, in order,
/// and stays in the table for all of them.
pub proof fn law_free_list(m: QueueModel)
    requires
        m.wf(),
    ensures
        listed(m.table, m.free_head, m.free.len()) == m.free,
        m.reaches(m.free.len()),
{
    crate::model::lemma_reaches(m, m.free.len());
    assert(m.free.take(m.free.len() as int) =~= m.free);
}

/// The device finds the buffers of an accepted request: the chain of its token tells of each
/// buffer, in order, and lets the device write the outputs and nothing before them. All of this
/// stands in memory before the count tells the device of it.
pub proof fn law_device_finds_buffers(m: QueueModel, inputs: Seq<Buffer>, outputs: Seq<Buffer>)
    requires
        m.wf(),
        m.refusal((inputs.len() + outputs.len()) as int) is None,
    ensures
        m.prepared(inputs, outputs).table == m.added(inputs, outputs).table,
        m.prepared(inputs, outputs).ring == m.added(inputs, outputs).ring,
        m.prepared(inputs, outputs).ring_count == m.ring_count,
        m.added(inputs, outputs).ring[m.avail_slot()] == m.free_head,
        walk(m.added(inputs, outputs).table, m.free_head, m.queue_size as nat).len() == inputs.len()
            + outputs.len(),
        forall|j: int|
            0 <= j < inputs.len() + outputs.len() ==> {
                let d = m.added(inputs, outputs).table[#[trigger] walk(
                    m.added(inputs, outputs).table,
                    m.free_head,
                    m.queue_size as nat,
                )[j] as int];
                &&& d.addr == (inputs + outputs)[j].addr as u64
                &&& d.len == (inputs + outputs)[j].len as u32
                &&& d.flags == DescFlags::of(
                    j >= inputs.len(),
                    j + 1 == inputs.len() + outputs.len(),
                )
            },
{
    crate::model::lemma_pow2_cases(m.queue_size);
    crate::model::lemma_filled_table(m, inputs, outputs);
    crate::model::lemma_added_wf(m, inputs, outputs);
    let p = m.added(inputs, outputs);
    law_device_finds_chain(p, m.free_head);
    let n = (inputs.len() + outputs.len()) as int;
    crate::model::lemma_reaches(m, n as nat);
    assert(p.chains[m.free_head] == m.free.take(n));
    assert forall|j: int| 0 <= j < n implies {
        let d = p.table[#[trigger] walk(p.table, m.free_head, m.queue_size as nat)[j] as int];
        &&& d.addr == (inputs + outputs)[j].addr as u64
        &&& d.len == (inputs + outputs)[j].len as u32
        &&& d.flags == DescFlags::of(j >= inputs.len(), j + 1 == n)
    } by {
        assert(walk(p.table, m.free_head, m.queue_size as nat)[j] == m.free[j]);
        assert(m.filled_table(inputs, outputs)[m.free[j] as int]
            == m.table[m.free[j] as int].filled(
            (inputs + outputs)[j],
            j >= inputs.len(),
            j + 1 == n,
        ));
    }
}

/// One step of a queue: a request was accepted.
pub open spec fn offers(pre: QueueModel, post: QueueModel) -> bool {
    exists|inputs: Seq<Buffer>, outputs: Seq<Buffer>|
        pre.refusal((inputs.len() + outputs.len()) as int) is None && post == #[trigger] pre.added(
            inputs,
            outputs,
        )
}

/// One step of a queue: a chain was taken back.
pub open spec fn takes_back(pre: QueueModel, post: QueueModel) -> bool {
    exists|used: Used|
        pre.chains.contains_key(QueueModel::token(used)) && post == #[trigger] pre.popped(used)
}

/// One step of a queue.
pub open spec fn steps(pre: QueueModel, post: QueueModel) -> bool {
    offers(pre, post) || takes_back(pre, post)
}

/// State `i` leads to the next one by a step.
pub open spec fn steps_at(states: Seq<QueueModel>, i: int) -> bool {
    steps(states[i], states[i + 1])
}

/// A history of a queue: each state leads to the next one by a step.
pub open spec fn history(states: Seq<QueueModel>) -> bool {
    forall|i: int| 0 <= i < states.len() - 1 ==> #[trigger] steps_at(states, i)
}

/// Every state of a history is valid, if the first one is.
pub proof fn law_history_valid(states: Seq<QueueModel>, i: int)
    requires
        history(states),
        0 <= i < states.len(),
        states[0].wf(),
    ensures
        states[i].wf(),
        states[i].queue_size == states[0].queue_size,
    decreases i,
{
    if i > 0 {
        let pre = states[i - 1];
        let post = states[i];
        law_history_valid(states, i - 1);
        assert(steps_at(states, i - 1));
        crate::model::lemma_pow2_cases(pre.queue_size);
        if offers(pre, post) {
            let (inputs, outputs) = choose|inputs: Seq<Buffer>, outputs: Seq<Buffer>|
                pre.refusal((inputs.len() + outputs.len()) as int) is None
                    && post == #[trigger] pre.added(inputs, outputs);
            crate::model::lemma_added_wf(pre, inputs, outputs);
        } else {
            let used = choose|used: Used|
                pre.chains.contains_key(QueueModel::token(used)) && post
                    == #[trigger] pre.popped(used);
            crate::model::lemma_popped_wf(pre, used);
        }
    }
}

/// How many requests were accepted in a history.
pub open spec fn offered(states: Seq<QueueModel>) -> nat
    decreases states.len(),
{
    if states.len() <= 1 {
        0
    } else {
        offered(states.drop_last()) + if states.last().avail_idx != states[states.len()
            - 2].avail_idx {
            1nat
        } else {
            0nat
        }
    }
}

/// The slot of a count does not depend on where the count wraps.
proof fn lemma_slot(a: int, k: int, n: u16)
    requires
        vstd::arithmetic::power2::is_pow2(n as int),
        0 <= a,
        0 <= k,
    ensures
        n > 0,
        (a + k) % 0x1_0000 % n as int == (a + k) % n as int,
        0 < k < n ==> (a + k) % n as int != a % n as int,
{
    crate::model::lemma_pow2_cases(n);
    let size = n as int;
    let times = 0x1_0000int / size;
    assert(size * times == 0x1_0000);
    vstd::arithmetic::div_mod::lemma_mod_mod(a + k, size, times);
    if 0 < k < n && (a + k) % size == a % size {
        vstd::arithmetic::div_mod::lemma_fundamental_div_mod(a, size);
        vstd::arithmetic::div_mod::lemma_fundamental_div_mod(a + k, size);
        let q = (a + k) / size - a / size;
        assert(k == size * q) by (nonlinear_arith)
            requires
                a == size * (a / size) + a % size,
                a + k == size * ((a + k) / size) + (a + k) % size,
                (a + k) % size == a % size,
                q == (a + k) / size - a / size,
        ;
        assert(false) by (nonlinear_arith)
            requires
                k == size * q,
                0 < k < size,
        ;
    }
}

/// Returned chains are taken back in the order of the used ring, one entry after the other, until
/// as many were taken back as the device returned.
pub proof fn law_taken_back_in_order(m: QueueModel, used: Used)
    requires
        m.sound(),
        m.plausible(used),
        m.can_pop(used.idx),
    ensures
        m.popped(used).used_slot() == (m.used_slot() + 1) % m.queue_size as int,
        m.popped(used).can_pop(used.idx) == (used.idx != (m.last_used_idx + 1) % 0x1_0000),
{
    let a = m.last_used_idx as int;
    let n = m.queue_size as int;
    lemma_slot(a, 1, m.queue_size);
    vstd::arithmetic::div_mod::lemma_add_mod_noop(a, 1, n);
    vstd::arithmetic::div_mod::lemma_add_mod_noop(a % n, 1, n);
    vstd::arithmetic::div_mod::lemma_mod_twice(a, n);
}

/// What a step does to the available ring.
proof fn lemma_step(pre: QueueModel, post: QueueModel)
    requires
        steps(pre, post),
    ensures
        post.queue_size == pre.queue_size,
        if post.avail_idx != pre.avail_idx {
            &&& post.avail_idx == (pre.avail_idx + 1) % 0x1_0000
            &&& exists|head: u16| post.ring == #[trigger] pre.ring.update(pre.avail_slot(), head)
        } else {
            post.ring == pre.ring
        },
{
    if offers(pre, post) {
        let (inputs, outputs) = choose|inputs: Seq<Buffer>, outputs: Seq<Buffer>|
            pre.refusal((inputs.len() + outputs.len()) as int) is None
                && post == #[trigger] pre.added(inputs, outputs);
        assert(post.ring == pre.ring.update(pre.avail_slot(), pre.free_head));
    }
}

proof fn lemma_offer_stays(states: Seq<QueueModel>, n: u16, slot: int, head: u16)
    requires
        history(states),
        states.len() >= 2,
        vstd::arithmetic::power2::is_pow2(n as int),
        states[0].queue_size == n,
        states[0].ring.len() == n,
        slot == states[0].avail_slot(),
        states[1].avail_idx == (states[0].avail_idx + 1) % 0x1_0000,
        states[1].ring == states[0].ring.update(slot, head),
        offered(states) <= n,
    ensures
        states.last().ring.len() == n,
        states.last().ring[slot] == head,
        states.last().queue_size == n,
        states.last().avail_idx == (states[0].avail_idx + offered(states)) % 0x1_0000,
        offered(states) >= 1,
    decreases states.len(),
{
    let a = states[0].avail_idx as int;
    let k = states.len() - 1;
    lemma_slot(a, 0, n);
    if k == 1 {
        assert(steps_at(states, 0));
        lemma_step(states[0], states[1]);
        assert(states.drop_last().len() == 1);
        assert(offered(states.drop_last()) == 0);
        assert(offered(states) == 1);
    } else {
        let before = states.drop_last();
        let pre = states[k - 1];
        let post = states[k];
        assert(history(before)) by {
            assert forall|i: int| 0 <= i < before.len() - 1 implies #[trigger] steps_at(
                before,
                i,
            ) by {
                assert(steps_at(states, i));
            }
        }
        lemma_offer_stays(before, n, slot, head);
        assert(before.last() == pre);
        assert(steps_at(states, k - 1));
        lemma_step(pre, post);
        let j = offered(before) as int;
        lemma_slot(a, j, n);
        assert(pre.avail_slot() == (a + j) % n as int);
        if post.avail_idx != pre.avail_idx {
            assert(offered(states) == j + 1);
            assert(pre.avail_slot() != slot);
            assert(post.avail_idx == (a + j + 1) % 0x1_0000);
        } else {
            assert(offered(states) == j);
        }
    }
}

/// An offered head stays in its entry of the available ring until the queue has offered as many
/// chains as it has descriptors. Here the first step of the history is the offer.
pub proof fn law_offer_stays(states: Seq<QueueModel>)
    requires
        states.len() >= 2,
        states[0].wf(),
        history(states),
        offers(states[0], states[1]),
        offered(states) <= states[0].queue_size,
    ensures
        states.last().ring[states[0].avail_slot()] == states[0].free_head,
{
    let (inputs, outputs) = choose|inputs: Seq<Buffer>, outputs: Seq<Buffer>|
        states[0].refusal((inputs.len() + outputs.len()) as int) is None
            && states[1] == #[trigger] states[0].added(inputs, outputs);
    lemma_offer_stays(states, states[0].queue_size, states[0].avail_slot(), states[0].free_head);
}

/// The parts of a queue lie one behind the other in its memory: the descriptor table, the
/// available ring, and from the start of a page the used ring. The memory is whole pages.
pub proof fn law_layout(layout: VirtQueueLayout, queue_size: u16)
    requires
        vstd::arithmetic::power2::is_pow2(queue_size as int),
        layout.is_for(queue_size as int),
    ensures
        VirtQueueLayout::table_bytes(queue_size as int) <= layout.avail_offset,
        layout.avail_offset + VirtQueueLayout::avail_bytes(queue_size as int)
            <= layout.used_offset,
        layout.used_offset % PAGE_SIZE == 0,
        layout.used_offset + VirtQueueLayout::used_bytes(queue_size as int) <= layout.size,
        layout.size % PAGE_SIZE == 0,
        layout.size > 0,
{
    crate::model::lemma_pow2_cases(queue_size);
}

} // verus!
