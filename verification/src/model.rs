//! The state of a queue as mathematics: which descriptors are free, which chains are in flight,
//! and what each operation does to them.
use crate::descriptor::{Buffer, DescModel};
use crate::error::Error;
use crate::flags::DescFlags;
use crate::ring::Used;
use vstd::prelude::*;

verus! {

/// The state of a queue.
///
/// The free descriptors and the chains in flight are what the driver has in its books. They tell
/// of the table as long as the device names nothing but tokens in flight.
#[verifier::ext_equal]
pub struct QueueModel {
    /// Which queue of the device this is.
    pub queue_idx: u32,
    /// The number of descriptors.
    pub queue_size: u16,
    /// The contents of the descriptors.
    pub table: Seq<DescModel>,
    /// The descriptor that is taken next.
    pub free_head: u16,
    /// How many descriptors are taken.
    pub num_used: u16,
    /// The free descriptors, in the order in which they will be taken.
    pub free: Seq<u16>,
    /// The link behind the last free descriptor. It is what the last row of the table held when
    /// the queue was made, and no descriptor is reached through it.
    pub end: u16,
    /// The chains that the device holds: for each token its descriptors, in order.
    pub chains: Map<u16, Seq<u16>>,
    /// The entries of the available ring.
    pub ring: Seq<u16>,
    /// How many chains the device can see that it was offered, modulo 2^16.
    pub ring_count: u16,
    /// How many chains were offered, modulo 2^16.
    pub avail_idx: u16,
    /// How many chains were taken back, modulo 2^16.
    pub last_used_idx: u16,
}

/// Every descriptor of `s` is one of the first `n`.
pub open spec fn within(s: Seq<u16>, n: int) -> bool {
    forall|i: int| 0 <= i < s.len() ==> #[trigger] s[i] < n
}

/// No descriptor stands in both.
pub open spec fn disjoint(s: Seq<u16>, t: Seq<u16>) -> bool {
    forall|i: int, j: int|
        0 <= i < s.len() && 0 <= j < t.len() ==> #[trigger] s[i] != #[trigger] t[j]
}

/// Each descriptor of `s` links to the one behind it, and the last one to `end`.
pub open spec fn linked(table: Seq<DescModel>, s: Seq<u16>, end: u16) -> bool {
    forall|i: int|
        0 <= i < s.len() ==> (#[trigger] table[s[i] as int]).next == if i + 1 < s.len() {
            s[i + 1]
        } else {
            end
        }
}

/// `s` is a descriptor chain: not empty, each descriptor but the last one goes on, and links to
/// the one behind it.
pub open spec fn chained(table: Seq<DescModel>, s: Seq<u16>) -> bool {
    &&& s.len() > 0
    &&& forall|i: int|
        0 <= i < s.len() ==> {
            &&& DescFlags::continues((#[trigger] table[s[i] as int]).flags) == (i + 1 < s.len())
            &&& i + 1 < s.len() ==> table[s[i] as int].next == s[i + 1]
        }
}

/// The descriptor that is reached from `head` by `n` links.
pub open spec fn nth(table: Seq<DescModel>, head: u16, n: nat) -> u16
    decreases n,
{
    if n == 0 {
        head
    } else {
        table[nth(table, head, (n - 1) as nat) as int].next
    }
}

/// The first `n` descriptors on the list that starts at `head`.
pub open spec fn listed(table: Seq<DescModel>, head: u16, n: nat) -> Seq<u16> {
    Seq::new(n, |i: int| nth(table, head, i as nat))
}

/// The descriptors that are visited from `head` on, as long as a descriptor says that the chain
/// goes on, `fuel` of them at most.
pub open spec fn walk(table: Seq<DescModel>, head: u16, fuel: nat) -> Seq<u16>
    decreases fuel,
{
    if fuel == 0 {
        seq![]
    } else if DescFlags::continues(table[head as int].flags) {
        seq![head] + walk(table, table[head as int].next, (fuel - 1) as nat)
    } else {
        seq![head]
    }
}

/// The walk from `head` stays in the table, and its chain ends after `fuel` descriptors or
/// before.
pub open spec fn ends(table: Seq<DescModel>, head: u16, fuel: nat) -> bool
    decreases fuel,
{
    &&& fuel > 0
    &&& head < table.len()
    &&& DescFlags::continues(table[head as int].flags) ==> ends(
        table,
        table[head as int].next,
        (fuel - 1) as nat,
    )
}

/// The table once the first `k` descriptors on the list that starts at `head` tell, one after the
/// other, of the first `k` buffers, of which the device reads the first `inputs`. Each says that
/// the chain goes on.
pub open spec fn strung(
    table: Seq<DescModel>,
    head: u16,
    bufs: Seq<Buffer>,
    inputs: int,
    k: nat,
) -> Seq<DescModel>
    decreases k,
{
    if k == 0 {
        table
    } else {
        let before = strung(table, head, bufs, inputs, (k - 1) as nat);
        let d = nth(table, head, (k - 1) as nat) as int;
        before.update(d, before[d].filled(bufs[k - 1], k - 1 >= inputs, false))
    }
}

/// Descriptor `d` belongs to some chain.
pub open spec fn in_some_chain(chains: Map<u16, Seq<u16>>, d: u16) -> bool {
    exists|h: u16| #[trigger] chains.contains_key(h) && chains[h].contains(d)
}

impl QueueModel {
    /// The chain of a token in flight starts at the token, stays in the table, uses no descriptor
    /// twice and none that is free.
    pub open spec fn chain_wf(self, h: u16) -> bool {
        &&& self.chains[h].len() > 0
        &&& self.chains[h][0] == h
        &&& within(self.chains[h], self.queue_size as int)
        &&& self.chains[h].no_duplicates()
        &&& chained(self.table, self.chains[h])
        &&& disjoint(self.free, self.chains[h])
    }

    /// The state is one that a queue can be in, whatever the device names.
    pub open spec fn sound(self) -> bool {
        &&& vstd::arithmetic::power2::is_pow2(self.queue_size as int)
        &&& self.table.len() == self.queue_size
        &&& self.ring.len() == self.queue_size
        &&& self.num_used <= self.queue_size
    }

    /// The state is one that a queue can be in as long as the device names nothing but tokens in
    /// flight. Above all, each descriptor is free or belongs to one chain in flight, never both
    /// and never to two chains.
    pub open spec fn wf(self) -> bool {
        &&& self.sound()
        &&& self.num_used + self.free.len() == self.queue_size
        &&& self.free_head == if self.free.len() > 0 {
            self.free[0]
        } else {
            self.end
        }
        &&& within(self.free, self.queue_size as int)
        &&& self.free.no_duplicates()
        &&& linked(self.table, self.free, self.end)
        &&& forall|h: u16| #[trigger] self.chains.contains_key(h) ==> self.chain_wf(h)
        &&& forall|g: u16, h: u16|
            #[trigger] self.chains.contains_key(g) && #[trigger] self.chains.contains_key(h) && g
                != h ==> disjoint(self.chains[g], self.chains[h])
        &&& forall|d: u16|
            d < self.queue_size ==> self.free.contains(d) || #[trigger] in_some_chain(
                self.chains,
                d,
            )
    }

    /// The entry of the available ring that is written next.
    pub open spec fn avail_slot(self) -> int {
        self.avail_idx as int % self.queue_size as int
    }

    /// The entry of the used ring that is read next.
    pub open spec fn used_slot(self) -> int {
        self.last_used_idx as int % self.queue_size as int
    }

    /// The state of a new queue over a table that held `rows`, with the rings as they were: all
    /// descriptors are free, in the order of the table.
    pub open spec fn fresh(
        queue_idx: u32,
        queue_size: u16,
        rows: Seq<DescModel>,
        ring: Seq<u16>,
        ring_count: u16,
    ) -> QueueModel {
        QueueModel {
            queue_idx,
            queue_size,
            table: Seq::new(
                rows.len(),
                |i: int|
                    if i + 1 < rows.len() {
                        DescModel { next: (i + 1) as u16, ..rows[i] }
                    } else {
                        rows[i]
                    },
            ),
            free_head: 0,
            num_used: 0,
            free: Seq::new(rows.len(), |i: int| i as u16),
            end: rows.last().next,
            chains: Map::empty(),
            ring,
            ring_count,
            avail_idx: 0,
            last_used_idx: 0,
        }
    }

    /// Why a request of `n` buffers is refused, if it is: it has no buffer, or more than there
    /// are descriptors that are not taken.
    pub open spec fn refusal(self, n: int) -> Option<Error> {
        if n == 0 {
            Some(Error::InvalidParam)
        } else if n + self.num_used > self.queue_size {
            Some(Error::BufferTooSmall)
        } else {
            None
        }
    }

    /// The list of free descriptors stays in the table for `n` descriptors.
    pub open spec fn reaches(self, n: nat) -> bool {
        forall|i: nat| i < n ==> #[trigger] nth(self.table, self.free_head, i) < self.table.len()
    }

    /// The table once the first free descriptors form a chain of the given buffers, those that
    /// the device reads before those that it writes.
    pub open spec fn filled_table(self, inputs: Seq<Buffer>, outputs: Seq<Buffer>) -> Seq<
        DescModel,
    > {
        let n = inputs.len() + outputs.len();
        let open = strung(
            self.table,
            self.free_head,
            inputs + outputs,
            inputs.len() as int,
            n,
        );
        let last = nth(self.table, self.free_head, (n - 1) as nat) as int;
        open.update(last, DescModel { flags: DescFlags::of(outputs.len() > 0, true), ..open[last] })
    }

    /// The state once the buffers of a request fill a chain of the first free descriptors, and the
    /// head of the chain, which is its token, stands in the available ring. The device does not
    /// know of it yet.
    pub open spec fn prepared(self, inputs: Seq<Buffer>, outputs: Seq<Buffer>) -> QueueModel {
        let n = inputs.len() + outputs.len();
        QueueModel {
            table: self.filled_table(inputs, outputs),
            free_head: nth(self.table, self.free_head, n),
            num_used: (self.num_used + n) as u16,
            free: self.free.skip(n as int),
            chains: self.chains.insert(self.free_head, listed(self.table, self.free_head, n)),
            ring: self.ring.update(self.avail_slot(), self.free_head),
            ..self
        }
    }

    /// The state after a request was accepted: its chain is prepared, and the count tells the
    /// device of it.
    pub open spec fn added(self, inputs: Seq<Buffer>, outputs: Seq<Buffer>) -> QueueModel {
        let count = ((self.avail_idx + 1) % 0x1_0000) as u16;
        QueueModel { ring_count: count, avail_idx: count, ..self.prepared(inputs, outputs) }
    }

    /// The chain that starts at `head` can be recycled: it stays in the table, ends, and has no
    /// more descriptors than are taken.
    pub open spec fn recyclable(self, head: u16) -> bool {
        ends(self.table, head, self.num_used as nat)
    }

    /// The state after the chain that starts at `head` was recycled: its descriptors, in order,
    /// stand before the other free ones.
    pub open spec fn recycled(self, head: u16) -> QueueModel {
        let chain = walk(self.table, head, self.num_used as nat);
        let last = chain.last() as int;
        QueueModel {
            table: self.table.update(
                last,
                DescModel { next: self.free_head, ..self.table[last] },
            ),
            free_head: head,
            num_used: (self.num_used - chain.len()) as u16,
            free: chain + self.free,
            chains: self.chains.remove(head),
            ..self
        }
    }

    /// The device returned a chain that was not taken back yet.
    pub open spec fn can_pop(self, idx: u16) -> bool {
        self.last_used_idx != idx
    }

    /// The token that the device named. Of the word in the used ring the low 16 bits count.
    pub open spec fn token(used: Used) -> u16 {
        used.id as u16
    }

    /// What the device said is right: either it returned nothing, or it named a token in flight.
    pub open spec fn honest(self, used: Used) -> bool {
        self.can_pop(used.idx) ==> self.chains.contains_key(Self::token(used))
    }

    /// What the device said can be acted on: either it returned nothing, or it named a descriptor
    /// from which a chain can be recycled. The driver cannot tell more.
    pub open spec fn plausible(self, used: Used) -> bool {
        self.can_pop(used.idx) ==> self.recyclable(Self::token(used))
    }

    /// The state after a returned chain was taken back.
    pub open spec fn popped(self, used: Used) -> QueueModel {
        QueueModel {
            last_used_idx: ((self.last_used_idx + 1) % 0x1_0000) as u16,
            ..self.recycled(Self::token(used))
        }
    }

    /// From `self` to `post`, popping against what the device said gives `result`: nothing
    /// happens where the device returned no chain; otherwise the chain is taken back.
    pub open spec fn pops(
        self,
        used: Used,
        post: QueueModel,
        result: Result<(u16, u32), Error>,
    ) -> bool {
        if self.can_pop(used.idx) {
            post == self.popped(used) && result == Ok::<(u16, u32), Error>(
                (Self::token(used), used.len),
            )
        } else {
            post == self && result == Err::<(u16, u32), Error>(Error::NotReady)
        }
    }
}

/// Different descriptors out of `n` are at most `n`.
pub proof fn lemma_distinct_len(s: Seq<u16>, n: nat)
    requires
        s.no_duplicates(),
        within(s, n as int),
    ensures
        s.len() <= n,
{
    s.unique_seq_to_set();
    let ints = vstd::set_lib::set_int_range(0, n as int);
    vstd::set_lib::lemma_int_range(0, n as int);
    let image = s.to_set().map(|d: u16| d as int);
    assert(image.subset_of(ints)) by {
        assert forall|x: int| image.contains(x) implies ints.contains(x) by {
            let d = choose|d: u16| s.to_set().contains(d) && d as int == x;
            assert(s.contains(d));
        }
    }
    vstd::set_lib::lemma_len_subset(image, ints);
    vstd::set_lib::lemma_map_size(s.to_set(), image, |d: u16| d as int);
}

/// A power of two among the 16-bit numbers is one of sixteen.
pub proof fn lemma_pow2_cases(n: u16)
    requires
        vstd::arithmetic::power2::is_pow2(n as int),
    ensures
        n == 1 || n == 2 || n == 4 || n == 8 || n == 16 || n == 32 || n == 64 || n == 128 || n
            == 256 || n == 512 || n == 1024 || n == 2048 || n == 4096 || n == 8192 || n == 16384
            || n == 32768,
{
    reveal_with_fuel(vstd::arithmetic::power2::is_pow2, 17);
}

/// Masking with a power of two less one is the remainder.
pub proof fn lemma_mask_is_mod(x: u16, n: u16)
    requires
        vstd::arithmetic::power2::is_pow2(n as int),
    ensures
        n > 0,
        x & ((n - 1) as u16) == x as int % n as int,
{
    lemma_pow2_cases(n);
    assert(x & ((n - 1) as u16) == x % n) by (bit_vector)
        requires
            n == 1 || n == 2 || n == 4 || n == 8 || n == 16 || n == 32 || n == 64 || n == 128 || n
                == 256 || n == 512 || n == 1024 || n == 2048 || n == 4096 || n == 8192 || n
                == 16384 || n == 32768,
    ;
}

/// A new queue is in a valid state.
pub proof fn lemma_fresh_wf(
    queue_idx: u32,
    queue_size: u16,
    rows: Seq<DescModel>,
    ring: Seq<u16>,
    ring_count: u16,
)
    requires
        vstd::arithmetic::power2::is_pow2(queue_size as int),
        rows.len() == queue_size,
        ring.len() == queue_size,
    ensures
        QueueModel::fresh(queue_idx, queue_size, rows, ring, ring_count).wf(),
{
    lemma_pow2_cases(queue_size);
    let m = QueueModel::fresh(queue_idx, queue_size, rows, ring, ring_count);
    assert forall|d: u16| d < m.queue_size implies m.free.contains(d) || #[trigger] in_some_chain(
        m.chains,
        d,
    ) by {
        assert(m.free[d as int] == d);
    }
}

/// The list that starts at the head of the free descriptors holds the free descriptors, in order,
/// and behind them the end.
pub proof fn lemma_free_nth(m: QueueModel, i: nat)
    requires
        m.wf(),
        i <= m.free.len(),
    ensures
        nth(m.table, m.free_head, i) == if i < m.free.len() {
            m.free[i as int]
        } else {
            m.end
        },
    decreases i,
{
    if i > 0 {
        lemma_free_nth(m, (i - 1) as nat);
        assert(m.table[m.free[i - 1] as int].next == if i < m.free.len() {
            m.free[i as int]
        } else {
            m.end
        });
    }
}

/// In a valid state the free list stays in the table for all free descriptors.
pub proof fn lemma_reaches(m: QueueModel, n: nat)
    requires
        m.wf(),
        n <= m.free.len(),
    ensures
        m.reaches(n),
        listed(m.table, m.free_head, n) == m.free.take(n as int),
{
    assert forall|i: nat| i < n implies #[trigger] nth(m.table, m.free_head, i)
        < m.table.len() by {
        lemma_free_nth(m, i);
    }
    assert forall|i: int| 0 <= i < n implies listed(m.table, m.free_head, n)[i] == m.free[i] by {
        lemma_free_nth(m, i as nat);
    }
    assert(listed(m.table, m.free_head, n) =~= m.free.take(n as int));
}

/// Filling descriptors keeps the links.
pub proof fn lemma_strung_links(
    table: Seq<DescModel>,
    head: u16,
    bufs: Seq<Buffer>,
    inputs: int,
    k: nat,
)
    requires
        forall|i: nat| i < k ==> #[trigger] nth(table, head, i) < table.len(),
    ensures
        strung(table, head, bufs, inputs, k).len() == table.len(),
        forall|d: int|
            0 <= d < table.len() ==> (#[trigger] strung(table, head, bufs, inputs, k)[d]).next
                == table[d].next,
    decreases k,
{
    if k > 0 {
        lemma_strung_links(table, head, bufs, inputs, (k - 1) as nat);
    }
}

/// What filling the first free descriptors does to each descriptor.
proof fn lemma_strung(m: QueueModel, bufs: Seq<Buffer>, inputs: int, k: nat)
    requires
        m.wf(),
        k <= bufs.len() <= m.free.len(),
    ensures
        strung(m.table, m.free_head, bufs, inputs, k).len() == m.table.len(),
        forall|j: int|
            0 <= j < k ==> #[trigger] strung(
                m.table,
                m.free_head,
                bufs,
                inputs,
                k,
            )[m.free[j] as int] == m.table[m.free[j] as int].filled(bufs[j], j >= inputs, false),
        forall|d: int|
            0 <= d < m.table.len() && !m.free.take(k as int).contains(d as u16)
                ==> #[trigger] strung(m.table, m.free_head, bufs, inputs, k)[d] == m.table[d],
    decreases k,
{
    if k > 0 {
        let p = (k - 1) as nat;
        let before = strung(m.table, m.free_head, bufs, inputs, p);
        let after = strung(m.table, m.free_head, bufs, inputs, k);
        lemma_strung(m, bufs, inputs, p);
        lemma_free_nth(m, p);
        let d = m.free[p as int];
        assert(!m.free.take(p as int).contains(d));
        assert(before[d as int] == m.table[d as int]);
        assert(after == before.update(
            d as int,
            m.table[d as int].filled(bufs[p as int], p >= inputs, false),
        ));
        assert forall|j: int| 0 <= j < k implies #[trigger] after[m.free[j] as int]
            == m.table[m.free[j] as int].filled(bufs[j], j >= inputs, false) by {
            if j < p {
                assert(m.free[j] != d);
                assert(before[m.free[j] as int] == m.table[m.free[j] as int].filled(
                    bufs[j],
                    j >= inputs,
                    false,
                ));
            }
        }
        assert forall|e: int|
            0 <= e < m.table.len() && !m.free.take(k as int).contains(
                e as u16,
            ) implies #[trigger] after[e] == m.table[e] by {
            assert(m.free.take(k as int)[p as int] == d);
            assert(e != d);
            if m.free.take(p as int).contains(e as u16) {
                let j = m.free.take(p as int).index_of(e as u16);
                assert(m.free.take(k as int)[j] == e as u16);
            }
        }
    }
}

/// What an accepted request puts into the table: the descriptor at each place of the new chain
/// tells of the buffer at that place, and every other descriptor stays.
pub proof fn lemma_filled_table(m: QueueModel, inputs: Seq<Buffer>, outputs: Seq<Buffer>)
    requires
        m.wf(),
        m.refusal((inputs.len() + outputs.len()) as int) is None,
    ensures
        m.filled_table(inputs, outputs).len() == m.table.len(),
        forall|j: int|
            0 <= j < inputs.len() + outputs.len() ==> #[trigger] m.filled_table(
                inputs,
                outputs,
            )[m.free[j] as int] == m.table[m.free[j] as int].filled(
                (inputs + outputs)[j],
                j >= inputs.len(),
                j + 1 == inputs.len() + outputs.len(),
            ),
        forall|d: int|
            0 <= d < m.table.len() && !m.free.take(
                (inputs.len() + outputs.len()) as int,
            ).contains(d as u16) ==> #[trigger] m.filled_table(inputs, outputs)[d] == m.table[d],
{
    let n = inputs.len() + outputs.len();
    let bufs = inputs + outputs;
    let open = strung(m.table, m.free_head, bufs, inputs.len() as int, n);
    lemma_strung(m, bufs, inputs.len() as int, n);
    lemma_free_nth(m, (n - 1) as nat);
    let last = m.free[n - 1];
    assert forall|j: int| 0 <= j < n implies #[trigger] m.filled_table(
        inputs,
        outputs,
    )[m.free[j] as int] == m.table[m.free[j] as int].filled(
        bufs[j],
        j >= inputs.len(),
        j + 1 == n,
    ) by {
        assert(open[m.free[j] as int] == m.table[m.free[j] as int].filled(
            bufs[j],
            j >= inputs.len(),
            false,
        ));
        if j + 1 < n {
            assert(m.free[j] != last);
        }
    }
    assert(m.free.take(n as int)[n - 1] == last);
}

/// An accepted request leads to a valid state.
pub proof fn lemma_added_wf(m: QueueModel, inputs: Seq<Buffer>, outputs: Seq<Buffer>)
    requires
        m.wf(),
        m.refusal((inputs.len() + outputs.len()) as int) is None,
    ensures
        m.added(inputs, outputs).wf(),
        !m.chains.contains_key(m.free_head),
{
    lemma_pow2_cases(m.queue_size);
    let n = (inputs.len() + outputs.len()) as int;
    let p = m.added(inputs, outputs);
    let chain = m.free.take(n);
    let head = m.free_head;
    lemma_reaches(m, n as nat);
    lemma_free_nth(m, n as nat);
    lemma_filled_table(m, inputs, outputs);
    DescFlags::lemma_chain_bits();
    if m.chains.contains_key(head) {
        assert(m.chain_wf(head));
        assert(m.free[0] != m.chains[head][0]);
    }
    assert forall|i: int| 0 <= i < p.free.len() implies (#[trigger] p.table[p.free[i] as int]).next
        == if i + 1 < p.free.len() {
        p.free[i + 1]
    } else {
        p.end
    } by {
        assert(p.free[i] == m.free[i + n]);
        assert(!chain.contains(p.free[i]));
        assert(p.table[p.free[i] as int] == m.table[m.free[i + n] as int]);
    }
    assert forall|i: int| 0 <= i < chain.len() implies {
        &&& DescFlags::continues((#[trigger] p.table[chain[i] as int]).flags) == (i + 1
            < chain.len())
        &&& i + 1 < chain.len() ==> p.table[chain[i] as int].next == chain[i + 1]
    } by {
        assert(chain[i] == m.free[i]);
        assert(p.table[m.free[i] as int].next == m.table[m.free[i] as int].next);
    }
    assert(p.chains[head] == chain);
    assert(p.chain_wf(head));
    assert forall|h: u16| #[trigger] p.chains.contains_key(h) implies p.chain_wf(h) by {
        if h != head {
            assert(m.chains.contains_key(h));
            assert(p.chains[h] == m.chains[h]);
            let c = m.chains[h];
            assert forall|i: int| 0 <= i < c.len() implies p.table[#[trigger] c[i] as int]
                == m.table[c[i] as int] by {
                assert(!chain.contains(c[i]));
            }
            assert forall|i: int| 0 <= i < c.len() implies {
                &&& DescFlags::continues((#[trigger] p.table[c[i] as int]).flags) == (i + 1
                    < c.len())
                &&& i + 1 < c.len() ==> p.table[c[i] as int].next == c[i + 1]
            } by {
                assert(p.table[c[i] as int] == m.table[c[i] as int]);
            }
        }
    }
    assert forall|g: u16, h: u16|
        #[trigger] p.chains.contains_key(g) && #[trigger] p.chains.contains_key(h) && g
            != h implies disjoint(p.chains[g], p.chains[h]) by {
        if g == head {
            assert(m.chains.contains_key(h) && m.chain_wf(h));
        } else if h == head {
            assert(m.chains.contains_key(g) && m.chain_wf(g));
        } else {
            assert(m.chains.contains_key(g) && m.chains.contains_key(h));
        }
    }
    assert forall|d: u16| d < p.queue_size implies p.free.contains(d) || #[trigger] in_some_chain(
        p.chains,
        d,
    ) by {
        if m.free.contains(d) {
            let i = m.free.index_of(d);
            if i < n {
                assert(chain[i] == d);
                assert(p.chains.contains_key(head));
            } else {
                assert(p.free[i - n] == d);
            }
        } else {
            assert(in_some_chain(m.chains, d));
            let h = choose|h: u16| #[trigger] m.chains.contains_key(h) && m.chains[h].contains(d);
            assert(p.chains.contains_key(h) && p.chains[h] == m.chains[h]);
        }
    }
}

/// A walk along a chain visits the chain and ends.
pub proof fn lemma_walk(table: Seq<DescModel>, chain: Seq<u16>, k: int, fuel: nat)
    requires
        chained(table, chain),
        within(chain, table.len() as int),
        0 <= k < chain.len(),
        chain.len() - k <= fuel,
    ensures
        walk(table, chain[k], fuel) == chain.skip(k),
        ends(table, chain[k], fuel),
    decreases fuel,
{
    assert(DescFlags::continues(table[chain[k] as int].flags) == (k + 1 < chain.len()));
    if k + 1 < chain.len() {
        lemma_walk(table, chain, k + 1, (fuel - 1) as nat);
        assert(chain.skip(k) =~= seq![chain[k]] + chain.skip(k + 1));
    } else {
        assert(chain.skip(k) =~= seq![chain[k]]);
    }
}

/// A chain that can be recycled is not empty and has no more descriptors than are taken; its last
/// one stands in the table.
pub proof fn lemma_walk_ends(table: Seq<DescModel>, head: u16, fuel: nat)
    requires
        ends(table, head, fuel),
    ensures
        0 < walk(table, head, fuel).len() <= fuel,
        walk(table, head, fuel).last() < table.len(),
    decreases fuel,
{
    if DescFlags::continues(table[head as int].flags) {
        lemma_walk_ends(table, table[head as int].next, (fuel - 1) as nat);
        let rest = walk(table, table[head as int].next, (fuel - 1) as nat);
        assert((seq![head] + rest).last() == rest.last());
    }
}

/// The chain of a token in flight can be recycled. A walk from the token visits the chain, and the
/// chain has no more descriptors than are taken.
pub proof fn lemma_in_flight(m: QueueModel, token: u16)
    requires
        m.wf(),
        m.chains.contains_key(token),
    ensures
        m.recyclable(token),
        walk(m.table, token, m.num_used as nat) == m.chains[token],
        m.chains[token].len() <= m.num_used,
{
    let chain = m.chains[token];
    assert(m.chain_wf(token));
    let both = chain + m.free;
    assert(both.no_duplicates()) by {
        assert forall|i: int, j: int|
            0 <= i < both.len() && 0 <= j < both.len() && i != j implies both[i] != both[j] by {
            if i < chain.len() && j < chain.len() {
            } else if i < chain.len() {
                assert(m.free[j - chain.len()] != chain[i]);
            } else if j < chain.len() {
                assert(m.free[i - chain.len()] != chain[j]);
            } else {
                assert(m.free[i - chain.len()] != m.free[j - chain.len()]);
            }
        }
    }
    assert(within(both, m.queue_size as int));
    lemma_distinct_len(both, m.queue_size as nat);
    lemma_walk(m.table, chain, 0, m.num_used as nat);
    assert(chain.skip(0) =~= chain);
}

/// Recycling a chain in flight leads to a valid state.
pub proof fn lemma_recycled_wf(m: QueueModel, token: u16)
    requires
        m.wf(),
        m.chains.contains_key(token),
    ensures
        m.recycled(token).wf(),
{
    let p = m.recycled(token);
    let chain = m.chains[token];
    assert(m.chain_wf(token));
    lemma_in_flight(m, token);
    let last = chain.last();
    assert(last == chain[chain.len() - 1]);
    assert(p.free.no_duplicates()) by {
        assert forall|i: int, j: int|
            0 <= i < p.free.len() && 0 <= j < p.free.len() && i != j implies p.free[i]
            != p.free[j] by {
            if i < chain.len() && j < chain.len() {
            } else if i < chain.len() {
                assert(m.free[j - chain.len()] != chain[i]);
            } else if j < chain.len() {
                assert(m.free[i - chain.len()] != chain[j]);
            } else {
                assert(m.free[i - chain.len()] != m.free[j - chain.len()]);
            }
        }
    }
    assert(within(p.free, p.queue_size as int));
    assert forall|i: int| 0 <= i < p.free.len() implies (#[trigger] p.table[p.free[i] as int]).next
        == if i + 1 < p.free.len() {
        p.free[i + 1]
    } else {
        p.end
    } by {
        if i < chain.len() {
            assert(p.free[i] == chain[i]);
            assert(m.table[chain[i] as int].next == m.table[chain[i] as int].next);
            if i + 1 < chain.len() {
                assert(chain[i] != last);
                assert(p.free[i + 1] == chain[i + 1]);
            }
        } else {
            let k = i - chain.len();
            assert(p.free[i] == m.free[k]);
            assert(m.free[k] != chain[chain.len() - 1]);
            assert(p.table[p.free[i] as int] == m.table[m.free[k] as int]);
        }
    }
    assert forall|h: u16| #[trigger] p.chains.contains_key(h) implies p.chain_wf(h) by {
        assert(m.chains.contains_key(h) && m.chain_wf(h));
        let c = m.chains[h];
        assert(p.chains[h] == c);
        assert(disjoint(m.chains[token], m.chains[h]));
        assert forall|i: int| 0 <= i < c.len() implies p.table[#[trigger] c[i] as int]
            == m.table[c[i] as int] by {
            assert(chain[chain.len() - 1] != c[i]);
        }
        assert forall|i: int| 0 <= i < c.len() implies {
            &&& DescFlags::continues((#[trigger] p.table[c[i] as int]).flags) == (i + 1 < c.len())
            &&& i + 1 < c.len() ==> p.table[c[i] as int].next == c[i + 1]
        } by {
            assert(p.table[c[i] as int] == m.table[c[i] as int]);
        }
        assert forall|i: int, j: int|
            0 <= i < p.free.len() && 0 <= j < c.len() implies #[trigger] p.free[i]
            != #[trigger] c[j] by {
            if i < chain.len() {
                assert(chain[i] != c[j]);
            } else {
                assert(m.free[i - chain.len()] != c[j]);
            }
        }
    }
    assert forall|d: u16| d < p.queue_size implies p.free.contains(d) || #[trigger] in_some_chain(
        p.chains,
        d,
    ) by {
        if m.free.contains(d) {
            let i = m.free.index_of(d);
            assert(p.free[i + chain.len()] == d);
        } else {
            assert(in_some_chain(m.chains, d));
            let h = choose|h: u16| #[trigger] m.chains.contains_key(h) && m.chains[h].contains(d);
            if h == token {
                let i = chain.index_of(d);
                assert(p.free[i] == d);
            } else {
                assert(p.chains.contains_key(h) && p.chains[h] == m.chains[h]);
            }
        }
    }
}

/// Taking back a returned chain leads to a valid state.
pub proof fn lemma_popped_wf(m: QueueModel, used: Used)
    requires
        m.wf(),
        m.chains.contains_key(QueueModel::token(used)),
    ensures
        m.popped(used).wf(),
{
    lemma_recycled_wf(m, QueueModel::token(used));
    let r = m.recycled(QueueModel::token(used));
    let p = m.popped(used);
    assert forall|h: u16| #[trigger] p.chains.contains_key(h) implies p.chain_wf(h) by {
        assert(r.chains.contains_key(h) && r.chain_wf(h));
    }
}

} // verus!
