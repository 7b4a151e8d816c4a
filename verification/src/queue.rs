//! The mechanism for bulk data transport on virtio devices.
use crate::cell;
use crate::descriptor::{Buffer, DescModel, Descriptor, DescriptorCells};
use crate::error::Error;
use crate::flags::{DescFlags, NEXT, WRITE};
use crate::layout::QueuePlan;
use crate::model::QueueModel;
use crate::ring::{AvailRing, Used, UsedRing};
use volatile::Volatile;
use vstd::prelude::*;

verus! {

/// The memory of a queue, which the device shares.
pub struct QueueMemory<'a> {
    /// The descriptor table.
    pub desc: Vec<DescriptorCells<'a>>,
    /// The available ring.
    pub avail: AvailRing<'a>,
    /// The used ring.
    pub used: UsedRing<'a>,
}

impl<'a> QueueMemory<'a> {
    /// The table and both rings are those of a queue of the given size.
    pub open spec fn fits(&self, size: int) -> bool {
        &&& self.desc@.len() == size
        &&& self.avail.entries().len() == size
        &&& self.used.ring@.len() == size
    }
}

/// The mechanism for bulk data transport on virtio devices.
///
/// Each device can have zero or more virtqueues.
pub struct VirtQueue<'a> {
    /// The descriptor table.
    desc: Vec<DescriptorCells<'a>>,
    /// The available ring.
    avail: AvailRing<'a>,
    /// The used ring.
    used: UsedRing<'a>,
    /// Which queue of the device this is.
    queue_idx: u32,
    /// The number of descriptors.
    queue_size: u16,
    /// How many descriptors are taken.
    num_used: u16,
    /// The head of the list of free descriptors.
    free_head: u16,
    /// How many chains were offered.
    avail_idx: u16,
    /// How many chains were taken back.
    last_used_idx: u16,
    /// The free descriptors, in the order of the list.
    free: Ghost<Seq<u16>>,
    /// The link behind the last free descriptor.
    end: Ghost<u16>,
    /// The chains in flight.
    chains: Ghost<Map<u16, Seq<u16>>>,
}

impl<'a> View for VirtQueue<'a> {
    type V = QueueModel;

    closed spec fn view(&self) -> QueueModel {
        QueueModel {
            queue_idx: self.queue_idx,
            queue_size: self.queue_size,
            table: DescriptorCells::contents(self.desc@),
            free_head: self.free_head,
            num_used: self.num_used,
            free: self.free@,
            end: self.end@,
            chains: self.chains@,
            ring: self.avail.entries(),
            ring_count: self.avail.count(),
            avail_idx: self.avail_idx,
            last_used_idx: self.last_used_idx,
        }
    }
}

impl<'a> VirtQueue<'a> {
    /// The used ring has an entry for each descriptor.
    pub closed spec fn used_fits(&self) -> bool {
        self.used.ring@.len() == self.queue_size
    }

    /// The descriptors of the table, each with its words.
    pub closed spec fn rows(&self) -> Seq<DescriptorCells<'a>> {
        self.desc@
    }

    /// The available ring, with its words.
    pub closed spec fn avail_ring(&self) -> AvailRing<'a> {
        self.avail
    }

    /// The used ring, which the device writes.
    pub closed spec fn used_ring(&self) -> UsedRing<'a> {
        self.used
    }

    /// The state of the queue is what its words contain.
    pub proof fn law_state_is_in_memory(&self)
        ensures
            self@.table == DescriptorCells::contents(self.rows()),
            self@.ring == self.avail_ring().entries(),
            self@.ring_count == self.avail_ring().count(),
    {
    }

    /// The used ring of a queue has an entry for each descriptor.
    pub proof fn law_used_ring_fits(&self)
        requires
            self.sound(),
        ensures
            self.used_ring().ring@.len() == self@.queue_size,
    {
    }

    /// Once the queue is not changed any more, its memory contains its last state for good.
    pub proof fn law_last_state_stays(self)
        requires
            has_resolved(self),
        ensures
            cell::word16(*final(self.avail_ring().idx)) == self@.ring_count,
            final(self.avail_ring().ring)@.map_values(|word: Volatile<u16>| cell::word16(word))
                == self@.ring,
            forall|i: int|
                0 <= i < self.rows().len() ==> {
                    let row = #[trigger] self.rows()[i];
                    self@.table[i] == (DescModel {
                        addr: cell::word64(*final(row.addr)),
                        len: cell::word32(*final(row.len)),
                        flags: cell::word16(*final(row.flags)),
                        next: cell::word16(*final(row.next)),
                    })
                },
    {
    }

    /// A read of the used ring gave this: the count and, where a chain was returned, the entry
    /// that comes next.
    pub open spec fn says(&self, used: Used) -> bool {
        &&& self.used_ring().counts(used.idx)
        &&& self@.can_pop(used.idx) ==> self.used_ring().holds(
            self@.used_slot(),
            used.id,
            used.len,
        )
    }

    /// The queue is in a state that it can be in, whatever the device names.
    pub open spec fn sound(&self) -> bool {
        &&& self@.sound()
        &&& self.used_fits()
    }

    /// The queue is in a state that it can be in as long as the device names nothing but tokens in
    /// flight.
    pub open spec fn wf(&self) -> bool {
        &&& self@.wf()
        &&& self.used_fits()
    }

    /// Create a new queue over its memory, whose words it holds from then on. `queue_used` and
    /// `max_queue_size` are what the device says of queue `idx`.
    pub fn new(
        queue_used: bool,
        max_queue_size: u32,
        idx: usize,
        size: u16,
        memory: QueueMemory<'a>,
    ) -> (queue: Result<Self, Error>)
        requires
            QueuePlan::refusal(queue_used, max_queue_size, size) is None ==> memory.fits(
                size as int,
            ),
        ensures
            match QueuePlan::refusal(queue_used, max_queue_size, size) {
                Some(error) => queue == Err::<Self, Error>(error),
                None => {
                    &&& queue matches Ok(q)
                    &&& q.wf()
                    &&& q.used_ring() == memory.used
                    &&& *final(q.avail_ring().idx) == *final(memory.avail.idx)
                    &&& final(q.avail_ring().ring)@ == final(memory.avail.ring)@
                    &&& q.rows().len() == size
                    &&& forall|i: int|
                        0 <= i < memory.desc@.len() ==> {
                            let row = #[trigger] q.rows()[i];
                            &&& *final(row.addr) == *final(memory.desc@[i].addr)
                            &&& *final(row.len) == *final(memory.desc@[i].len)
                            &&& *final(row.flags) == *final(memory.desc@[i].flags)
                            &&& *final(row.next) == *final(memory.desc@[i].next)
                        }
                    &&& q@ == QueueModel::fresh(
                        idx as u32,
                        size,
                        DescriptorCells::contents(memory.desc@),
                        memory.avail.entries(),
                        memory.avail.count(),
                    )
                },
            },
            queue is Ok <==> !queue_used && vstd::arithmetic::power2::is_pow2(size as int) && size
                <= max_queue_size,
            queue_used ==> queue == Err::<Self, Error>(Error::AlreadyUsed),
            !queue_used && queue is Err ==> queue == Err::<Self, Error>(Error::InvalidParam),
    {
        let plan = QueuePlan::new(queue_used, max_queue_size, idx, size)?;
        let QueueMemory { mut desc, avail, used } = memory;
        let ghost cells = desc@;
        let ghost rows = DescriptorCells::contents(cells);
        let ghost fresh = QueueModel::fresh(
            idx as u32,
            size,
            rows,
            avail.entries(),
            avail.count(),
        );
        proof {
            crate::model::lemma_fresh_wf(
                idx as u32,
                size,
                rows,
                avail.entries(),
                avail.count(),
            );
            crate::model::lemma_pow2_cases(size);
        }

        // link the free descriptors
        let mut i: u16 = 0;
        while i < size - 1
            invariant
                0 <= i <= size - 1,
                desc@.len() == size,
                rows.len() == size,
                fresh.table.len() == size,
                cells.len() == size,
                forall|j: int|
                    0 <= j < cells.len() ==> {
                        let row = #[trigger] desc@[j];
                        &&& *final(row.addr) == *final(cells[j].addr)
                        &&& *final(row.len) == *final(cells[j].len)
                        &&& *final(row.flags) == *final(cells[j].flags)
                        &&& *final(row.next) == *final(cells[j].next)
                    },
                forall|j: int| 0 <= j < i ==> #[trigger] desc@[j]@ == fresh.table[j],
                forall|j: int| i <= j < size ==> #[trigger] desc@[j]@ == rows[j],
                forall|j: int|
                    0 <= j < size ==> #[trigger] fresh.table[j] == if j + 1 < size {
                        DescModel { next: (j + 1) as u16, ..rows[j] }
                    } else {
                        rows[j]
                    },
            decreases size - i,
        {
            desc[i as usize].set_next(i + 1);
            i = i + 1;
        }
        assert(DescriptorCells::contents(desc@) =~= fresh.table);

        Ok(
            VirtQueue {
                desc,
                avail,
                used,
                queue_idx: plan.queue_idx,
                queue_size: size,
                num_used: 0,
                free_head: 0,
                avail_idx: 0,
                last_used_idx: 0,
                free: Ghost(fresh.free),
                end: Ghost(fresh.end),
                chains: Ghost(Map::empty()),
            },
        )
    }

    /// Add buffers to the queue, return a token. The device reads `inputs` and writes `outputs`.
    pub fn add(&mut self, inputs: &[Buffer], outputs: &[Buffer]) -> (token: Result<u16, Error>)
        requires
            old(self).sound(),
            old(self).wf() || old(self)@.refusal((inputs@.len() + outputs@.len()) as int) is Some
                || old(self)@.reaches(inputs@.len() + outputs@.len()),
        ensures
            final(self).sound(),
            old(self).wf() ==> final(self).wf(),
            final(self).used_ring() == old(self).used_ring(),
            *final(final(self).avail_ring().idx) == *final(old(self).avail_ring().idx),
            final(final(self).avail_ring().ring)@ == final(old(self).avail_ring().ring)@,
            forall|i: int|
                0 <= i < old(self).rows().len() ==> {
                    let row = #[trigger] final(self).rows()[i];
                    &&& *final(row.addr) == *final(old(self).rows()[i].addr)
                    &&& *final(row.len) == *final(old(self).rows()[i].len)
                    &&& *final(row.flags) == *final(old(self).rows()[i].flags)
                    &&& *final(row.next) == *final(old(self).rows()[i].next)
                },
            match old(self)@.refusal((inputs@.len() + outputs@.len()) as int) {
                Some(error) => token == Err::<u16, Error>(error) && final(self)@ == old(self)@,
                None => token == Ok::<u16, Error>(old(self)@.free_head) && final(self)@ == old(
                    self,
                )@.added(inputs@, outputs@),
            },
    {
        if inputs.len() == 0 && outputs.len() == 0 {
            return Err(Error::InvalidParam);
        }
        let room: usize = (self.queue_size - self.num_used) as usize;
        if inputs.len() > room || outputs.len() > room - inputs.len() {
            return Err(Error::BufferTooSmall);
        }
        let ghost m = self@;
        let ghost n = inputs@.len() + outputs@.len();
        let ghost bufs = inputs@ + outputs@;
        proof {
            DescFlags::lemma_chain_bits();
            crate::model::lemma_pow2_cases(m.queue_size);
            if m.wf() {
                crate::model::lemma_reaches(m, n);
            }
        }

        // take descriptors from the list of free ones
        let head: u16 = self.free_head;
        let mut last: u16 = self.free_head;
        let mut i: usize = 0;
        while i < inputs.len()
            invariant
                i <= inputs@.len(),
                bufs == inputs@ + outputs@,
                m.reaches(inputs@.len() + outputs@.len()),
                m == old(self)@,
                self.same_but_table(old(self)),
                self.rows().len() == old(self).rows().len(),
                forall|j: int|
                    0 <= j < old(self).rows().len() ==> {
                        let row = #[trigger] self.rows()[j];
                        &&& *final(row.addr) == *final(old(self).rows()[j].addr)
                        &&& *final(row.len) == *final(old(self).rows()[j].len)
                        &&& *final(row.flags) == *final(old(self).rows()[j].flags)
                        &&& *final(row.next) == *final(old(self).rows()[j].next)
                    },
                self.taking(m, bufs, inputs@.len() as int, i as nat),
                i > 0 ==> last == crate::model::nth(m.table, m.free_head, (i - 1) as nat),
            decreases inputs@.len() - i,
        {
            let ghost before = *self;
            last = self.take(&inputs[i], DescFlags::new(NEXT));
            proof {
                before.lemma_taking_step(*self, m, bufs, inputs@.len() as int, i as nat);
            }
            i = i + 1;
        }
        let mut o: usize = 0;
        while o < outputs.len()
            invariant
                o <= outputs@.len(),
                bufs == inputs@ + outputs@,
                m.reaches(inputs@.len() + outputs@.len()),
                m == old(self)@,
                self.same_but_table(old(self)),
                self.rows().len() == old(self).rows().len(),
                forall|j: int|
                    0 <= j < old(self).rows().len() ==> {
                        let row = #[trigger] self.rows()[j];
                        &&& *final(row.addr) == *final(old(self).rows()[j].addr)
                        &&& *final(row.len) == *final(old(self).rows()[j].len)
                        &&& *final(row.flags) == *final(old(self).rows()[j].flags)
                        &&& *final(row.next) == *final(old(self).rows()[j].next)
                    },
                self.taking(m, bufs, inputs@.len() as int, inputs@.len() + o as nat),
                inputs@.len() + o > 0 ==> last == crate::model::nth(
                    m.table,
                    m.free_head,
                    (inputs@.len() + o - 1) as nat,
                ),
            decreases outputs@.len() - o,
        {
            let ghost before = *self;
            proof {
                DescFlags::lemma_chain_bits();
            }
            last = self.take(&outputs[o], DescFlags::new(NEXT).union(DescFlags::new(WRITE)));
            proof {
                before.lemma_taking_step(
                    *self,
                    m,
                    bufs,
                    inputs@.len() as int,
                    inputs@.len() + o as nat,
                );
            }
            o = o + 1;
        }

        // the chain ends at its last descriptor
        let ghost open = self@.table;
        proof {
            crate::model::lemma_strung_links(m.table, m.free_head, bufs, inputs@.len() as int, n);
            crate::model::lemma_strung_links(
                m.table,
                m.free_head,
                bufs,
                inputs@.len() as int,
                (n - 1) as nat,
            );
        }
        let mut flags = self.desc[last as usize].flags();
        flags.remove(DescFlags::new(NEXT));
        self.desc[last as usize].set_flags(flags);
        assert(self@.table =~= open.update(
            last as int,
            DescModel { flags: flags.bits, ..open[last as int] },
        ));
        assert(self@.table == m.filled_table(inputs@, outputs@));
        self.num_used = self.num_used + (inputs.len() + outputs.len()) as u16;

        // offer the head of the chain
        proof {
            crate::model::lemma_mask_is_mod(self.avail_idx, self.queue_size);
        }
        let avail_slot: u16 = self.avail_idx & (self.queue_size - 1);
        self.avail.set_entry(avail_slot, head);
        proof {
            self.free@ = m.free.skip(n as int);
            self.chains@ = m.chains.insert(
                head,
                crate::model::listed(m.table, m.free_head, n),
            );
            assert(self@ =~= m.prepared(inputs@, outputs@));
        }
        self.publish(Ghost(m), Ghost(inputs@), Ghost(outputs@));
        proof {
            if m.wf() {
                crate::model::lemma_added_wf(m, inputs@, outputs@);
            }
        }
        Ok(head)
    }

    /// Tell the device of the chain that was prepared. The chain, all of it, and its entry in the
    /// available ring stand in memory before the count is written.
    fn publish(
        &mut self,
        Ghost(pre): Ghost<QueueModel>,
        Ghost(inputs): Ghost<Seq<Buffer>>,
        Ghost(outputs): Ghost<Seq<Buffer>>,
    )
        requires
            old(self)@ == pre.prepared(inputs, outputs),
        ensures
            final(self)@ == pre.added(inputs, outputs),
            final(self).used_ring() == old(self).used_ring(),
            *final(final(self).avail_ring().idx) == *final(old(self).avail_ring().idx),
            final(final(self).avail_ring().ring)@ == final(old(self).avail_ring().ring)@,
            final(self).rows() == old(self).rows(),
    {
        // write barrier
        cell::memory_barrier();

        // increase head of available ring
        self.avail_idx = self.avail_idx.wrapping_add(1);
        self.avail.set_count(self.avail_idx);
        assert(self@ =~= pre.added(inputs, outputs));
    }

    /// Nothing but the table and the head of the free list differs.
    spec fn same_but_table(&self, other: &Self) -> bool {
        &&& self.avail == other.avail
        &&& self.used == other.used
        &&& self.queue_idx == other.queue_idx
        &&& self.queue_size == other.queue_size
        &&& self.num_used == other.num_used
        &&& self.avail_idx == other.avail_idx
        &&& self.last_used_idx == other.last_used_idx
        &&& self.free == other.free
        &&& self.end == other.end
        &&& self.chains == other.chains
    }

    /// From the state `m`, the first `k` free descriptors have been taken for the first `k`
    /// buffers, of which the device reads the first `inputs`.
    spec fn taking(&self, m: QueueModel, bufs: Seq<Buffer>, inputs: int, k: nat) -> bool {
        &&& self@.table.len() == m.table.len()
        &&& self@.table == crate::model::strung(m.table, m.free_head, bufs, inputs, k)
        &&& self.free_head == crate::model::nth(m.table, m.free_head, k)
    }

    /// Taking one more descriptor.
    proof fn lemma_taking_step(
        self,
        after: Self,
        m: QueueModel,
        bufs: Seq<Buffer>,
        inputs: int,
        k: nat,
    )
        requires
            self.taking(m, bufs, inputs, k),
            m.reaches(k + 1),
            after.free_head == self@.table[self.free_head as int].next,
            after@.table == self@.table.update(
                self.free_head as int,
                self@.table[self.free_head as int].filled(bufs[k as int], k >= inputs, false),
            ),
        ensures
            after.taking(m, bufs, inputs, k + 1),
    {
        crate::model::lemma_strung_links(m.table, m.free_head, bufs, inputs, k);
    }

    /// Take the first free descriptor for a buffer and return its number.
    fn take(&mut self, buf: &Buffer, flags: DescFlags) -> (taken: u16)
        requires
            old(self).free_head < old(self)@.table.len(),
        ensures
            taken == old(self).free_head,
            final(self).same_but_table(old(self)),
            final(self).free_head == old(self)@.table[taken as int].next,
            final(self)@.table == old(self)@.table.update(
                taken as int,
                DescModel {
                    addr: buf.addr as u64,
                    len: buf.len as u32,
                    flags: flags.bits,
                    ..old(self)@.table[taken as int]
                },
            ),
            final(self).rows().len() == old(self).rows().len(),
            forall|i: int|
                0 <= i < old(self).rows().len() ==> {
                    let row = #[trigger] final(self).rows()[i];
                    &&& *final(row.addr) == *final(old(self).rows()[i].addr)
                    &&& *final(row.len) == *final(old(self).rows()[i].len)
                    &&& *final(row.flags) == *final(old(self).rows()[i].flags)
                    &&& *final(row.next) == *final(old(self).rows()[i].next)
                },
    {
        let taken: u16 = self.free_head;
        let desc = &mut self.desc[taken as usize];
        desc.set_buf(buf);
        desc.set_flags(flags);
        self.free_head = desc.next();
        assert(self@.table =~= old(self)@.table.update(
            taken as int,
            DescModel {
                addr: buf.addr as u64,
                len: buf.len as u32,
                flags: flags.bits,
                ..old(self)@.table[taken as int]
            },
        ));
        taken
    }

    /// Whether there is a used element that can pop. The device decides.
    pub fn can_pop(&self) -> (yes: bool)
        ensures
            exists|idx: u16| #[trigger]
                self.used_ring().counts(idx) && yes == self@.can_pop(idx),
    {
        let idx: u16 = self.used.count();
        assert(self.used_ring().counts(idx));
        self.can_pop_at(idx)
    }

    /// Whether there is a used element that can pop, when the device has returned `idx` chains.
    pub fn can_pop_at(&self, idx: u16) -> (yes: bool)
        ensures
            yes == self@.can_pop(idx),
            yes <==> idx != self@.last_used_idx,
    {
        self.last_used_idx != idx
    }

    /// The number of free descriptors.
    pub fn available_desc(&self) -> (n: usize)
        requires
            self.sound(),
        ensures
            n == self@.queue_size - self@.num_used,
            self.wf() ==> n == self@.free.len(),
    {
        (self.queue_size - self.num_used) as usize
    }

    /// The descriptor that the next chain starts with.
    pub fn get_desc_idx(&self) -> (idx: usize)
        ensures
            idx == self@.free_head,
    {
        self.free_head as usize
    }

    /// Whether the list of free descriptors stays in the table for `n` descriptors. It does so for
    /// all free descriptors, unless the device named what was not in flight.
    pub fn reaches(&self, n: usize) -> (yes: bool)
        requires
            self.sound(),
        ensures
            yes == self@.reaches(n as nat),
    {
        let mut cur: u16 = self.free_head;
        let mut i: usize = 0;
        while i < n
            invariant
                self.sound(),
                i <= n,
                cur == crate::model::nth(self@.table, self@.free_head, i as nat),
                self@.reaches(i as nat),
            decreases n - i,
        {
            if cur >= self.queue_size {
                return false;
            }
            cur = self.desc[cur as usize].next();
            i = i + 1;
        }
        true
    }

    /// Recycle descriptors in the list specified by head.
    ///
    /// This will push all linked descriptors at the front of the free list.
    fn recycle_descriptors(&mut self, head: u16)
        requires
            old(self).sound(),
            old(self)@.recyclable(head),
        ensures
            final(self).sound(),
            final(self).used_ring() == old(self).used_ring(),
            *final(final(self).avail_ring().idx) == *final(old(self).avail_ring().idx),
            final(final(self).avail_ring().ring)@ == final(old(self).avail_ring().ring)@,
            forall|i: int|
                0 <= i < old(self).rows().len() ==> {
                    let row = #[trigger] final(self).rows()[i];
                    &&& *final(row.addr) == *final(old(self).rows()[i].addr)
                    &&& *final(row.len) == *final(old(self).rows()[i].len)
                    &&& *final(row.flags) == *final(old(self).rows()[i].flags)
                    &&& *final(row.next) == *final(old(self).rows()[i].next)
                },
            final(self)@ == old(self)@.recycled(head),
    {
        let ghost m = self@;
        let ghost chain = crate::model::walk(m.table, head, m.num_used as nat);
        let ghost mut visited: Seq<u16> = seq![];
        proof {
            crate::model::lemma_walk_ends(m.table, head, m.num_used as nat);
            assert(chain =~= visited + chain);
        }
        let mut cur: u16 = head;
        let origin_free_head: u16 = self.free_head;
        self.free_head = head;
        loop
            invariant
                m == old(self)@,
                m.sound(),
                chain == crate::model::walk(m.table, head, m.num_used as nat),
                chain == visited + crate::model::walk(m.table, cur, self.num_used as nat),
                crate::model::ends(m.table, cur, self.num_used as nat),
                self.num_used + visited.len() == m.num_used,
                origin_free_head == m.free_head,
                self.desc == old(self).desc,
                self.avail == old(self).avail,
                self.used == old(self).used,
                self.used_fits(),
                self@ == (QueueModel { free_head: head, num_used: self.num_used, ..m }),
            decreases self.num_used,
        {
            assert(m.table[cur as int] == self.desc@[cur as int]@);
            let flags = self.desc[cur as usize].flags();
            let ghost left = self.num_used as nat;
            self.num_used = self.num_used - 1;
            if flags.contains(DescFlags::new(NEXT)) {
                let ghost seen = cur;
                cur = self.desc[cur as usize].next();
                proof {
                    assert(chain =~= visited.push(seen) + crate::model::walk(
                        m.table,
                        cur,
                        (left - 1) as nat,
                    ));
                    visited = visited.push(seen);
                }
            } else {
                self.desc[cur as usize].set_next(origin_free_head);
                proof {
                    assert(chain =~= visited.push(cur));
                    self.free@ = chain + m.free;
                    self.chains@ = m.chains.remove(head);
                    assert(self@ =~= m.recycled(head));
                }
                return ;
            }
        }
    }

    /// Read what the device says: how many chains it returned and, if one of them was not taken
    /// back yet, the entry of the next one.
    pub(crate) fn read_used(&self) -> (used: Used)
        requires
            self.sound(),
        ensures
            self.says(used),
    {
        let idx: u16 = self.used.count();
        if !self.can_pop_at(idx) {
            return Used { idx, id: 0, len: 0 };
        }
        // read barrier
        cell::memory_barrier();
        proof {
            crate::model::lemma_mask_is_mod(self.last_used_idx, self.queue_size);
        }
        let last_used_slot: u16 = self.last_used_idx & (self.queue_size - 1);
        let (id, len) = self.used.entry(last_used_slot);
        Used { idx, id, len }
    }

    /// Whether what the device said can be acted on: either it returned nothing, or it named a
    /// descriptor from which a chain can be recycled.
    pub fn plausible(&self, used: &Used) -> (yes: bool)
        requires
            self.sound(),
        ensures
            yes == self@.plausible(*used),
    {
        if !self.can_pop_at(used.idx) {
            return true;
        }
        let token: u16 = #[verifier::truncate]
        (used.id as u16);
        let mut cur: u16 = token;
        let mut left: u16 = self.num_used;
        loop
            invariant
                self.sound(),
                self@.can_pop(used.idx),
                token == QueueModel::token(*used),
                self@.recyclable(token) == crate::model::ends(self@.table, cur, left as nat),
            decreases left,
        {
            if left == 0 || cur >= self.queue_size {
                return false;
            }
            assert(self@.table[cur as int] == self.desc@[cur as int]@);
            if !self.desc[cur as usize].flags().contains(DescFlags::new(NEXT)) {
                return true;
            }
            cur = self.desc[cur as usize].next();
            left = left - 1;
        }
    }

    /// Get a token from device used buffers, return (token, len), given what the device says.
    pub fn pop_used_at(&mut self, used: &Used) -> (popped: Result<(u16, u32), Error>)
        requires
            old(self).sound(),
            old(self)@.plausible(*used),
        ensures
            final(self).sound(),
            old(self).wf() && old(self)@.honest(*used) ==> final(self).wf(),
            final(self).used_ring() == old(self).used_ring(),
            *final(final(self).avail_ring().idx) == *final(old(self).avail_ring().idx),
            final(final(self).avail_ring().ring)@ == final(old(self).avail_ring().ring)@,
            forall|i: int|
                0 <= i < old(self).rows().len() ==> {
                    let row = #[trigger] final(self).rows()[i];
                    &&& *final(row.addr) == *final(old(self).rows()[i].addr)
                    &&& *final(row.len) == *final(old(self).rows()[i].len)
                    &&& *final(row.flags) == *final(old(self).rows()[i].flags)
                    &&& *final(row.next) == *final(old(self).rows()[i].next)
                },
            old(self)@.pops(*used, final(self)@, popped),
            popped is Ok <==> used.idx != old(self)@.last_used_idx,
            popped matches Ok(p) ==> p.0 == used.id % 0x1_0000 && p.1 == used.len,
            popped matches Err(e) ==> e == Error::NotReady,
    {
        if !self.can_pop_at(used.idx) {
            return Err(Error::NotReady);
        }
        let index: u16 = #[verifier::truncate]
        (used.id as u16);
        self.recycle_descriptors(index);
        let ghost recycled = *self;
        self.last_used_idx = self.last_used_idx.wrapping_add(1);
        proof {
            assert(self.rows() == recycled.rows());
            assert(self@ =~= old(self)@.popped(*used));
            if old(self).wf() && old(self)@.honest(*used) {
                crate::model::lemma_popped_wf(old(self)@, *used);
            }
        }
        proof {
            crate::effects::law_acted_on(old(self)@, *used);
        }
        Ok((index, used.len))
    }

    /// Get a token from device used buffers, return (token, len).
    ///
    /// The device is taken at its word: where it names a descriptor that is not the head of a
    /// chain in flight, the descriptors from there on are recycled all the same. Where nothing can
    /// be recycled from the descriptor that it names, the queue stays as it is and the result is
    /// an I/O error.
    pub fn pop_used(&mut self) -> (popped: Result<(u16, u32), Error>)
        requires
            old(self).sound(),
        ensures
            final(self).sound(),
            final(self).used_ring() == old(self).used_ring(),
            *final(final(self).avail_ring().idx) == *final(old(self).avail_ring().idx),
            final(final(self).avail_ring().ring)@ == final(old(self).avail_ring().ring)@,
            forall|i: int|
                0 <= i < old(self).rows().len() ==> {
                    let row = #[trigger] final(self).rows()[i];
                    &&& *final(row.addr) == *final(old(self).rows()[i].addr)
                    &&& *final(row.len) == *final(old(self).rows()[i].len)
                    &&& *final(row.flags) == *final(old(self).rows()[i].flags)
                    &&& *final(row.next) == *final(old(self).rows()[i].next)
                },
            exists|used: Used|
                {
                    &&& #[trigger] old(self).says(used)
                    &&& old(self).wf() && old(self)@.honest(used) ==> final(self).wf()
                    &&& if old(self)@.plausible(used) {
                        old(self)@.pops(used, final(self)@, popped)
                    } else {
                        &&& final(self)@ == old(self)@
                        &&& popped == Err::<(u16, u32), Error>(Error::IoError)
                    }
                },
    {
        let used = self.read_used();
        assert(old(self).says(used));
        if !self.plausible(&used) {
            return Err(Error::IoError);
        }
        self.pop_used_at(&used)
    }

    /// A copy of a descriptor.
    pub fn get_desc(&self, id: usize) -> (desc: Descriptor)
        requires
            self.sound(),
            id < self@.queue_size,
        ensures
            desc@ == self@.table[id as int],
            cell::word64(desc.addr) == self@.table[id as int].addr,
            cell::word32(desc.len) == self@.table[id as int].len,
            cell::word16(desc.flags) == self@.table[id as int].flags,
            cell::word16(desc.next) == self@.table[id as int].next,
    {
        self.desc[id].load()
    }
}

} // verus!
