//! What each operation of a queue does: to every descriptor, every entry of a ring and every
//! count.
use crate::cell;
use crate::descriptor::{Buffer, DescModel, Descriptor, DescriptorCells};
use crate::error::Error;
use crate::flags::{DescFlags, INDIRECT, NEXT, WRITE};
use crate::layout::{QueuePlan, VirtQueueLayout};
use crate::model::{ends, nth, strung, walk, QueueModel};
use crate::queue::VirtQueue;
use crate::ring::{AvailRing, Used, UsedRing};
use vstd::prelude::*;

verus! {

/// `c` is a list in the table that starts at `head`: each descriptor links to the one behind it,
/// and the last one to `end`.
pub open spec fn is_list(table: Seq<DescModel>, head: u16, c: Seq<u16>, end: u16) -> bool {
    &&& c.len() > 0
    &&& c[0] == head
    &&& forall|i: int| 0 <= i < c.len() ==> #[trigger] c[i] < table.len()
    &&& forall|i: int|
        0 <= i < c.len() ==> (#[trigger] table[c[i] as int]).next == if i + 1 < c.len() {
            c[i + 1]
        } else {
            end
        }
}

/// `c` is a chain in the table that starts at `head`: each descriptor but the last one has the
/// lowest flag set and links to the one behind it, and the last one has it not set.
pub open spec fn is_chain(table: Seq<DescModel>, head: u16, c: Seq<u16>) -> bool {
    &&& c.len() > 0
    &&& c[0] == head
    &&& forall|i: int| 0 <= i < c.len() ==> #[trigger] c[i] < table.len()
    &&& forall|i: int|
        0 <= i < c.len() ==> {
            &&& ((#[trigger] table[c[i] as int]).flags & 1 == 1) == (i + 1 < c.len())
            &&& i + 1 < c.len() ==> table[c[i] as int].next == c[i + 1]
        }
}

/// The place `j` is the last one at which `c` has this descriptor.
pub open spec fn is_last_place(c: Seq<u16>, j: int) -> bool {
    forall|l: int| j < l < c.len() ==> #[trigger] c[l] != c[j]
}

proof fn lemma_nth(table: Seq<DescModel>, head: u16, c: Seq<u16>, end: u16, k: nat)
    requires
        is_list(table, head, c, end),
        k <= c.len(),
    ensures
        nth(table, head, k) == if k < c.len() {
            c[k as int]
        } else {
            end
        },
    decreases k,
{
    if k > 0 {
        lemma_nth(table, head, c, end, (k - 1) as nat);
        assert(c[k - 1] < table.len());
    }
}

/// None of the places of `c` from `from` up to `to` has descriptor `d`.
spec fn absent(c: Seq<u16>, from: int, to: int, d: int) -> bool {
    forall|l: int| from <= l < to ==> #[trigger] c[l] != d
}

proof fn lemma_strung_at(
    table: Seq<DescModel>,
    head: u16,
    c: Seq<u16>,
    end: u16,
    bufs: Seq<Buffer>,
    inputs: int,
    k: nat,
    d: int,
)
    requires
        is_list(table, head, c, end),
        k <= c.len(),
        bufs.len() == c.len(),
        0 <= d < table.len(),
    ensures
        strung(table, head, bufs, inputs, k).len() == table.len(),
        absent(c, 0, k as int, d) ==> strung(table, head, bufs, inputs, k)[d] == table[d],
        forall|j: int|
            0 <= j < k && #[trigger] c[j] == d && absent(c, j + 1, k as int, d) ==> strung(
                table,
                head,
                bufs,
                inputs,
                k,
            )[d] == table[d].filled(bufs[j], j >= inputs, false),
    decreases k,
{
    if k > 0 {
        let p = (k - 1) as nat;
        let before = strung(table, head, bufs, inputs, p);
        lemma_strung_at(table, head, c, end, bufs, inputs, p, d);
        lemma_strung_links_of(table, head, c, end, bufs, inputs, p);
        lemma_nth(table, head, c, end, p);
        let e = c[p as int];
        assert(e < table.len());
        assert(strung(table, head, bufs, inputs, k) == before.update(
            e as int,
            before[e as int].filled(bufs[p as int], p >= inputs, false),
        ));
        assert(before[d].next == table[d].next);
        if absent(c, 0, k as int, d) {
            assert(absent(c, 0, p as int, d));
        }
        assert forall|j: int|
            0 <= j < k && #[trigger] c[j] == d && absent(c, j + 1, k as int, d) implies strung(
            table,
            head,
            bufs,
            inputs,
            k,
        )[d] == table[d].filled(bufs[j], j >= inputs, false) by {
            if j < p {
                assert(e != d);
                assert(absent(c, j + 1, p as int, d));
            }
        }
    }
}

proof fn lemma_strung_links_of(
    table: Seq<DescModel>,
    head: u16,
    c: Seq<u16>,
    end: u16,
    bufs: Seq<Buffer>,
    inputs: int,
    k: nat,
)
    requires
        is_list(table, head, c, end),
        k <= c.len(),
    ensures
        strung(table, head, bufs, inputs, k).len() == table.len(),
        forall|d: int|
            0 <= d < table.len() ==> (#[trigger] strung(table, head, bufs, inputs, k)[d]).next
                == table[d].next,
{
    assert forall|i: nat| i < k implies #[trigger] nth(table, head, i) < table.len() by {
        lemma_nth(table, head, c, end, i);
        assert(c[i as int] < table.len());
    }
    crate::model::lemma_strung_links(table, head, bufs, inputs, k);
}

proof fn lemma_low_bits(x: usize)
    ensures
        x as u32 == x as int % 0x1_0000_0000,
{
    let y = x as u64;
    assert(y as u32 == y % 0x1_0000_0000u64) by (bit_vector);
}

proof fn lemma_low_half(x: u32)
    ensures
        x as u16 == x % 0x1_0000,
{
    assert(x as u16 == x % 0x1_0000u32) by (bit_vector);
}

/// An accepted request takes the descriptors at the front of the free list, whatever they are. The
/// descriptor at each place tells of the buffer at that place: its address, the low 32 bits of its
/// length, that the chain goes on (1) unless the place is the last one, and that the device writes
/// (2) if the buffer is an output. No link and no other descriptor changes.
pub proof fn law_add(
    m: QueueModel,
    inputs: Seq<Buffer>,
    outputs: Seq<Buffer>,
    c: Seq<u16>,
    end: u16,
)
    requires
        m.sound(),
        is_list(m.table, m.free_head, c, end),
        c.len() == inputs.len() + outputs.len(),
        m.num_used + c.len() <= m.queue_size,
    ensures
        m.refusal((inputs.len() + outputs.len()) as int) is None,
        m.reaches(inputs.len() + outputs.len()),
        ({
            let p = m.added(inputs, outputs);
            &&& p.free_head == end
            &&& p.num_used == m.num_used + c.len()
            &&& p.table.len() == m.table.len()
            &&& forall|d: int|
                0 <= d < m.table.len() ==> (#[trigger] p.table[d]).next == m.table[d].next
            &&& forall|d: int|
                0 <= d < m.table.len() && !c.contains(d as u16) ==> #[trigger] p.table[d]
                    == m.table[d]
            &&& forall|j: int|
                0 <= j < inputs.len() && is_last_place(c, j) ==> {
                    let d = p.table[#[trigger] c[j] as int];
                    &&& d.addr == inputs[j].addr
                    &&& d.len == inputs[j].len as int % 0x1_0000_0000
                    &&& d.flags == if j + 1 < c.len() {
                        1u16
                    } else {
                        0u16
                    }
                }
            &&& forall|j: int|
                inputs.len() <= j < c.len() && is_last_place(c, j) ==> {
                    let d = p.table[#[trigger] c[j] as int];
                    &&& d.addr == outputs[j - inputs.len()].addr
                    &&& d.len == outputs[j - inputs.len()].len as int % 0x1_0000_0000
                    &&& d.flags == if j + 1 < c.len() {
                        3u16
                    } else {
                        2u16
                    }
                }
            &&& p.free == m.free.skip(c.len() as int)
            &&& p.chains == m.chains.insert(m.free_head, c)
        }),
{
    let n = c.len();
    let bufs = inputs + outputs;
    let p = m.added(inputs, outputs);
    let open = strung(m.table, m.free_head, bufs, inputs.len() as int, n);
    crate::model::lemma_pow2_cases(m.queue_size);
    assert forall|i: nat| i < n implies #[trigger] nth(m.table, m.free_head, i)
        < m.table.len() by {
        lemma_nth(m.table, m.free_head, c, end, i);
        assert(c[i as int] < m.table.len());
    }
    lemma_nth(m.table, m.free_head, c, end, n);
    lemma_nth(m.table, m.free_head, c, end, (n - 1) as nat);
    lemma_strung_links_of(m.table, m.free_head, c, end, bufs, inputs.len() as int, n);
    let last = c[n - 1];
    assert(last < m.table.len());
    assert(p.table == open.update(
        last as int,
        DescModel { flags: DescFlags::of(outputs.len() > 0, true), ..open[last as int] },
    ));
    assert(is_last_place(c, n - 1));
    assert forall|j: int| 0 <= j < n && is_last_place(c, j) implies p.table[#[trigger] c[j] as int]
        == m.table[c[j] as int].filled(bufs[j], j >= inputs.len(), j + 1 == n) by {
        assert(c[j] < m.table.len());
        lemma_strung_at(
            m.table,
            m.free_head,
            c,
            end,
            bufs,
            inputs.len() as int,
            n,
            c[j] as int,
        );
        assert(absent(c, j + 1, n as int, c[j] as int));
        if j + 1 < n {
            assert(c[n - 1] != c[j]);
        }
    }
    assert forall|j: int| 0 <= j < n implies bufs[j].len as u32 == (#[trigger] bufs[j]).len as int
        % 0x1_0000_0000 by {
        lemma_low_bits(bufs[j].len);
    }
    assert forall|j: int| 0 <= j < inputs.len() implies #[trigger] bufs[j] == inputs[j] by {}
    assert forall|j: int| inputs.len() <= j < n implies #[trigger] bufs[j] == outputs[j
        - inputs.len()] by {}
    assert forall|d: int|
        0 <= d < m.table.len() && !c.contains(d as u16) implies #[trigger] p.table[d]
        == m.table[d] by {
        lemma_strung_at(m.table, m.free_head, c, end, bufs, inputs.len() as int, n, d);
        assert(absent(c, 0, n as int, d)) by {
            assert forall|l: int| 0 <= l < n implies #[trigger] c[l] != d by {
                assert(c.contains(c[l]));
            }
        }
        assert(c.contains(last));
    }
    assert(crate::model::listed(m.table, m.free_head, n) =~= c) by {
        assert forall|i: int| 0 <= i < n implies crate::model::listed(m.table, m.free_head, n)[i]
            == c[i] by {
            lemma_nth(m.table, m.free_head, c, end, i as nat);
        }
    }
}

/// An accepted request is offered to the device: the head of its chain stands in the next entry of
/// the available ring, whose other entries stay, and the device's count is the number of requests
/// so far, modulo 2^16. What was taken back does not change.
pub proof fn law_offer(m: QueueModel, inputs: Seq<Buffer>, outputs: Seq<Buffer>)
    requires
        m.sound(),
    ensures
        ({
            let p = m.added(inputs, outputs);
            &&& p.ring.len() == m.ring.len()
            &&& forall|k: int|
                0 <= k < m.queue_size ==> #[trigger] p.ring[k] == if k == m.avail_idx as int
                    % m.queue_size as int {
                    m.free_head
                } else {
                    m.ring[k]
                }
            &&& p.avail_idx == (m.avail_idx + 1) % 0x1_0000
            &&& p.ring_count == (m.avail_idx + 1) % 0x1_0000
            &&& p.last_used_idx == m.last_used_idx
            &&& p.queue_idx == m.queue_idx
            &&& p.queue_size == m.queue_size
            &&& p.end == m.end
        }),
{
    crate::model::lemma_pow2_cases(m.queue_size);
}

/// Where every descriptor is free or in flight, the descriptors that an accepted request takes are
/// the first free ones, each once.
pub proof fn law_add_takes_free(
    m: QueueModel,
    inputs: Seq<Buffer>,
    outputs: Seq<Buffer>,
)
    requires
        m.wf(),
        0 < inputs.len() + outputs.len() <= m.free.len(),
    ensures
        ({
            let n = inputs.len() + outputs.len();
            let p = m.added(inputs, outputs);
            &&& m.free_head == m.free[0]
            &&& p.free_head == if n < m.free.len() {
                m.free[n as int]
            } else {
                m.end
            }
            &&& p.free.len() == m.free.len() - n
            &&& forall|j: int|
                0 <= j < n ==> {
                    let d = p.table[#[trigger] m.free[j] as int];
                    let b = (inputs + outputs)[j];
                    &&& d.addr == b.addr
                    &&& d.len == b.len as int % 0x1_0000_0000
                    &&& d.flags == (if j + 1 < n {
                        1int
                    } else {
                        0int
                    }) + (if j >= inputs.len() {
                        2int
                    } else {
                        0int
                    })
                    &&& j + 1 < n ==> d.next == m.free[j + 1]
                }
            &&& p.chains[m.free[0]] == m.free.take(n as int)
        }),
{
    let n = inputs.len() + outputs.len();
    let c = m.free.take(n as int);
    let end = if n < m.free.len() {
        m.free[n as int]
    } else {
        m.end
    };
    assert forall|i: int| 0 <= i < c.len() implies (#[trigger] m.table[c[i] as int]).next == if i
        + 1 < c.len() {
        c[i + 1]
    } else {
        end
    } by {
        assert(c[i] == m.free[i]);
        assert(m.table[m.free[i] as int].next == if i + 1 < m.free.len() {
            m.free[i + 1]
        } else {
            m.end
        });
    }
    law_add(m, inputs, outputs, c, end);
    let p = m.added(inputs, outputs);
    assert forall|j: int| 0 <= j < n implies {
        let d = p.table[#[trigger] m.free[j] as int];
        let b = (inputs + outputs)[j];
        &&& d.addr == b.addr
        &&& d.len == b.len as int % 0x1_0000_0000
        &&& d.flags == (if j + 1 < n {
            1int
        } else {
            0int
        }) + (if j >= inputs.len() {
            2int
        } else {
            0int
        })
        &&& j + 1 < n ==> d.next == m.free[j + 1]
    } by {
        assert(c[j] == m.free[j]);
        assert(is_last_place(c, j)) by {
            assert forall|l: int| j < l < c.len() implies #[trigger] c[l] != c[j] by {
                assert(m.free[l] != m.free[j]);
            }
        }
        assert(c[j] < m.table.len());
    }
}

/// A request is refused for two reasons only: it has no buffer, or there are not as many free
/// descriptors as it has buffers.
pub proof fn law_refused(m: QueueModel, n: nat)
    ensures
        m.refusal(n as int) == Some(Error::InvalidParam) <==> n == 0,
        m.refusal(n as int) == Some(Error::BufferTooSmall) <==> n > 0 && m.num_used + n
            > m.queue_size,
        m.refusal(n as int) is None <==> n > 0 && m.num_used + n <= m.queue_size,
        m.wf() && n > 0 ==> (m.refusal(n as int) is None <==> n <= m.free.len()),
{
}

/// The free list stays in the table for as many descriptors as the list of its links says.
pub proof fn law_reach(m: QueueModel, c: Seq<u16>)
    requires
        c.len() > 0 ==> c[0] == m.free_head,
        forall|i: int|
            0 <= i < c.len() - 1 && c[i] < m.table.len() ==> (#[trigger] m.table[c[i] as int]).next
                == c[i + 1],
    ensures
        m.reaches(c.len()) <==> forall|i: int| 0 <= i < c.len() ==> #[trigger] c[i] < m.table.len(),
{
    if m.reaches(c.len()) {
        assert forall|i: int| 0 <= i < c.len() implies #[trigger] c[i] < m.table.len() by {
            lemma_reached(m, c, i as nat);
        }
    }
    if forall|i: int| 0 <= i < c.len() ==> #[trigger] c[i] < m.table.len() {
        assert forall|i: nat| i < c.len() implies #[trigger] nth(m.table, m.free_head, i)
            < m.table.len() by {
            lemma_listed_nth(m, c, i);
            assert(c[i as int] < m.table.len());
        }
    }
}

proof fn lemma_reached(m: QueueModel, c: Seq<u16>, i: nat)
    requires
        m.reaches(c.len()),
        i < c.len(),
        c[0] == m.free_head,
        forall|i: int|
            0 <= i < c.len() - 1 && c[i] < m.table.len() ==> (#[trigger] m.table[c[i] as int]).next
                == c[i + 1],
    ensures
        nth(m.table, m.free_head, i) == c[i as int],
        c[i as int] < m.table.len(),
    decreases i,
{
    assert(nth(m.table, m.free_head, i) < m.table.len());
    if i > 0 {
        lemma_reached(m, c, (i - 1) as nat);
    }
}

proof fn lemma_listed_nth(m: QueueModel, c: Seq<u16>, i: nat)
    requires
        i < c.len(),
        c[0] == m.free_head,
        forall|i: int| 0 <= i < c.len() ==> #[trigger] c[i] < m.table.len(),
        forall|i: int|
            0 <= i < c.len() - 1 && c[i] < m.table.len() ==> (#[trigger] m.table[c[i] as int]).next
                == c[i + 1],
    ensures
        nth(m.table, m.free_head, i) == c[i as int],
    decreases i,
{
    if i > 0 {
        lemma_listed_nth(m, c, (i - 1) as nat);
        assert(c[i - 1] < m.table.len());
    }
}

proof fn lemma_chain_walk(table: Seq<DescModel>, c: Seq<u16>, k: int, fuel: nat)
    requires
        c.len() > 0,
        is_chain(table, c[0], c),
        0 <= k < c.len(),
        c.len() - k <= fuel,
    ensures
        walk(table, c[k], fuel) == c.skip(k),
        ends(table, c[k], fuel),
    decreases fuel,
{
    assert(c[k] < table.len());
    if k + 1 < c.len() {
        lemma_chain_walk(table, c, k + 1, (fuel - 1) as nat);
        assert(c.skip(k) =~= seq![c[k]] + c.skip(k + 1));
    } else {
        assert(c.skip(k) =~= seq![c[k]]);
    }
}

proof fn lemma_ends_chain(table: Seq<DescModel>, head: u16, fuel: nat)
    requires
        ends(table, head, fuel),
    ensures
        is_chain(table, head, walk(table, head, fuel)),
        walk(table, head, fuel).len() <= fuel,
    decreases fuel,
{
    let c = walk(table, head, fuel);
    if DescFlags::continues(table[head as int].flags) {
        let next = table[head as int].next;
        let rest = walk(table, next, (fuel - 1) as nat);
        lemma_ends_chain(table, next, (fuel - 1) as nat);
        assert(c == seq![head] + rest);
        assert forall|i: int| 0 <= i < c.len() implies #[trigger] c[i] < table.len() by {
            if i > 0 {
                assert(c[i] == rest[i - 1]);
            }
        }
        assert forall|i: int| 0 <= i < c.len() implies {
            &&& ((#[trigger] table[c[i] as int]).flags & 1 == 1) == (i + 1 < c.len())
            &&& i + 1 < c.len() ==> table[c[i] as int].next == c[i + 1]
        } by {
            if i > 0 {
                assert(c[i] == rest[i - 1]);
                assert((table[rest[i - 1] as int].flags & 1 == 1) == (i < rest.len()));
            }
        }
    }
}

/// What the device said can be acted on if it returned nothing, or if a chain starts at the
/// descriptor that it names which has no more descriptors than are taken; and only then. Of the
/// number that the device gives, the low 16 bits name the descriptor.
pub proof fn law_acted_on(m: QueueModel, used: Used)
    ensures
        QueueModel::token(used) == used.id % 0x1_0000,
        m.can_pop(used.idx) <==> used.idx != m.last_used_idx,
        m.plausible(used) <==> used.idx == m.last_used_idx || exists|c: Seq<u16>|
            #[trigger] is_chain(m.table, QueueModel::token(used), c) && c.len() <= m.num_used,
{
    lemma_low_half(used.id);
    let token = QueueModel::token(used);
    let fuel = m.num_used as nat;
    if ends(m.table, token, fuel) {
        lemma_ends_chain(m.table, token, fuel);
    }
    if exists|c: Seq<u16>| #[trigger]
        is_chain(m.table, token, c) && c.len() <= m.num_used {
        let c = choose|c: Seq<u16>| #[trigger]
            is_chain(m.table, token, c) && c.len() <= m.num_used;
        lemma_chain_walk(m.table, c, 0, fuel);
    }
}

/// Popping gives nothing but an error where the device returned nothing. Otherwise it gives the
/// descriptor that the device named and the number of bytes that the device gave, whatever the
/// descriptors say. The chain that starts there stands before the other free descriptors: its last
/// descriptor links to the one that was taken next before. No other descriptor and no ring
/// changes, and one chain more was taken back.
pub proof fn law_pop(
    m: QueueModel,
    used: Used,
    post: QueueModel,
    result: Result<(u16, u32), Error>,
    c: Seq<u16>,
)
    requires
        m.pops(used, post, result),
        used.idx != m.last_used_idx ==> is_chain(m.table, (used.id % 0x1_0000) as u16, c)
            && c.len() <= m.num_used,
    ensures
        used.idx == m.last_used_idx ==> post == m && result == Err::<(u16, u32), Error>(
            Error::NotReady,
        ),
        used.idx != m.last_used_idx ==> {
            &&& result matches Ok(popped)
            &&& popped.0 == used.id % 0x1_0000
            &&& popped.1 == used.len
            &&& post.free_head == used.id % 0x1_0000
            &&& post.num_used == m.num_used - c.len()
            &&& post.table.len() == m.table.len()
            &&& forall|d: int|
                0 <= d < m.table.len() ==> {
                    &&& (#[trigger] post.table[d]).addr == m.table[d].addr
                    &&& post.table[d].len == m.table[d].len
                    &&& post.table[d].flags == m.table[d].flags
                    &&& post.table[d].next == if d == c[c.len() - 1] {
                        m.free_head
                    } else {
                        m.table[d].next
                    }
                }
            &&& post.last_used_idx == (m.last_used_idx + 1) % 0x1_0000
            &&& post.avail_idx == m.avail_idx
            &&& post.ring == m.ring
            &&& post.ring_count == m.ring_count
            &&& post.queue_idx == m.queue_idx
            &&& post.queue_size == m.queue_size
            &&& post.end == m.end
            &&& post.free == c + m.free
            &&& post.chains == m.chains.remove((used.id % 0x1_0000) as u16)
        },
{
    lemma_low_half(used.id);
    if used.idx != m.last_used_idx {
        lemma_chain_walk(m.table, c, 0, m.num_used as nat);
        assert(c.skip(0) =~= c);
        assert(c[c.len() - 1] < m.table.len());
    }
}

/// Where every descriptor is free or in flight, the chain that is taken back with a token is the
/// one that was offered under it.
pub proof fn law_pop_takes_back(m: QueueModel, token: u16)
    requires
        m.wf(),
        m.chains.contains_key(token),
    ensures
        is_chain(m.table, token, m.chains[token]),
        m.chains[token].len() <= m.num_used,
{
    crate::model::lemma_in_flight(m, token);
    lemma_ends_chain(m.table, token, m.num_used as nat);
}

/// A new queue: every descriptor links to the one behind it in the table, and the last one keeps
/// its link. Nothing else in memory changes, all descriptors are free and nothing was offered or
/// taken back.
pub proof fn law_fresh(
    queue_idx: u32,
    queue_size: u16,
    rows: Seq<DescModel>,
    ring: Seq<u16>,
    ring_count: u16,
)
    requires
        rows.len() == queue_size,
        queue_size > 0,
    ensures
        ({
            let m = QueueModel::fresh(queue_idx, queue_size, rows, ring, ring_count);
            &&& m.queue_idx == queue_idx
            &&& m.queue_size == queue_size
            &&& m.table.len() == queue_size
            &&& forall|i: int|
                0 <= i < queue_size ==> {
                    &&& (#[trigger] m.table[i]).addr == rows[i].addr
                    &&& m.table[i].len == rows[i].len
                    &&& m.table[i].flags == rows[i].flags
                    &&& m.table[i].next == if i + 1 < queue_size {
                        i + 1
                    } else {
                        rows[i].next as int
                    }
                }
            &&& m.free_head == 0
            &&& m.num_used == 0
            &&& m.free.len() == queue_size
            &&& forall|i: int| 0 <= i < queue_size ==> #[trigger] m.free[i] == i
            &&& m.end == rows[queue_size - 1].next
            &&& forall|h: u16| !m.chains.contains_key(h)
            &&& m.ring == ring
            &&& m.ring_count == ring_count
            &&& m.avail_idx == 0
            &&& m.last_used_idx == 0
        }),
{
}

/// Something that happens to a queue: a request is accepted, or a chain is taken back.
pub enum Event {
    Offer(Seq<Buffer>, Seq<Buffer>),
    TakeBack(Used),
}

/// The event leads from `pre` to `post`.
pub open spec fn happens(pre: QueueModel, event: Event, post: QueueModel) -> bool {
    match event {
        Event::Offer(inputs, outputs) => post == pre.added(inputs, outputs),
        Event::TakeBack(used) => post == pre.popped(used),
    }
}

/// Event `i` leads from state `i` to the next one.
pub open spec fn happens_at(states: Seq<QueueModel>, events: Seq<Event>, i: int) -> bool {
    happens(states[i], events[i], states[i + 1])
}

/// The events lead through the states.
pub open spec fn runs(states: Seq<QueueModel>, events: Seq<Event>) -> bool {
    &&& states.len() == events.len() + 1
    &&& forall|i: int| 0 <= i < events.len() ==> #[trigger] happens_at(states, events, i)
}

/// How many of the events are accepted requests.
pub open spec fn accepted(events: Seq<Event>) -> nat
    decreases events.len(),
{
    if events.len() == 0 {
        0
    } else {
        accepted(events.drop_last()) + if events.last() is Offer {
            1nat
        } else {
            0nat
        }
    }
}

/// After any number of events, the count that the device reads is the number of accepted requests,
/// modulo 2^16, from the first request on, and the queue knows how many chains it offered and how
/// many it took back.
pub proof fn law_counts(states: Seq<QueueModel>, events: Seq<Event>)
    requires
        runs(states, events),
    ensures
        accepted(events) <= events.len(),
        states.last().avail_idx == (states[0].avail_idx + accepted(events)) % 0x1_0000,
        states.last().last_used_idx == (states[0].last_used_idx + events.len() - accepted(events))
            % 0x1_0000,
        states.last().ring_count == if accepted(events) > 0 {
            (states[0].avail_idx + accepted(events)) % 0x1_0000
        } else {
            states[0].ring_count as int
        },
        states.last().queue_size == states[0].queue_size,
        states.last().queue_idx == states[0].queue_idx,
    decreases events.len(),
{
    if events.len() > 0 {
        let k = events.len() - 1;
        let past = states.drop_last();
        assert(runs(past, events.drop_last())) by {
            assert forall|i: int| 0 <= i < k implies #[trigger] happens_at(
                past,
                events.drop_last(),
                i,
            ) by {
                assert(happens_at(states, events, i));
            }
        }
        law_counts(past, events.drop_last());
        assert(past.last() == states[k]);
        assert(happens_at(states, events, k));
    }
}

/// From one request to the next, whatever is taken back between them, the count that the device
/// reads grows by one, modulo 2^16.
pub proof fn law_count_grows_by_one(
    m: QueueModel,
    inputs: Seq<Buffer>,
    outputs: Seq<Buffer>,
    taken: Seq<Used>,
    states: Seq<QueueModel>,
    next_inputs: Seq<Buffer>,
    next_outputs: Seq<Buffer>,
)
    requires
        states.len() == taken.len() + 1,
        states[0] == m.added(inputs, outputs),
        forall|i: int|
            0 <= i < taken.len() ==> states[i + 1] == states[i].popped(#[trigger] taken[i]),
    ensures
        states.last().ring_count == m.added(inputs, outputs).ring_count,
        states.last().added(next_inputs, next_outputs).ring_count == (states.last().ring_count + 1)
            % 0x1_0000,
    decreases taken.len(),
{
    if taken.len() > 0 {
        let k = taken.len() - 1;
        let past = states.drop_last();
        assert forall|i: int| 0 <= i < k implies past[i + 1] == past[i].popped(
            #[trigger] taken.drop_last()[i],
        ) by {
            assert(states[i + 1] == states[i].popped(taken[i]));
        }
        law_count_grows_by_one(
            m,
            inputs,
            outputs,
            taken.drop_last(),
            past,
            next_inputs,
            next_outputs,
        );
        assert(past.last() == states[k]);
        assert(states[k + 1] == states[k].popped(taken[k]));
    }
}

/// What the queue reads of the used ring: the count word, and where it differs from the number of
/// chains that were taken back, the two words of the entry of that number.
pub proof fn law_reads<'a>(queue: VirtQueue<'a>, used: Used)
    requires
        queue.says(used),
    ensures
        cell::gave16(*queue.used_ring().idx, used.idx),
        used.idx != queue@.last_used_idx ==> {
            let entry = queue.used_ring().ring@[queue@.last_used_idx as int
                % queue@.queue_size as int];
            &&& cell::gave32(entry@[0], used.id)
            &&& cell::gave32(entry@[1], used.len)
        },
{
}

/// What a read of the used ring is: of the count word, and of the two words of an entry.
pub proof fn law_used_words<'a>(ring: UsedRing<'a>, slot: int, idx: u16, id: u32, len: u32)
    ensures
        ring.counts(idx) <==> cell::gave16(*ring.idx, idx),
        ring.holds(slot, id, len) <==> cell::gave32(ring.ring@[slot]@[0], id) && cell::gave32(
            ring.ring@[slot]@[1],
            len,
        ),
{
}

/// What the queue knows of its memory is what the words contain.
pub proof fn law_words<'a>(queue: VirtQueue<'a>, i: int)
    requires
        0 <= i < queue@.queue_size,
        queue.sound(),
    ensures
        queue.rows().len() == queue@.table.len(),
        queue@.table[i].addr == cell::word64(*queue.rows()[i].addr),
        queue@.table[i].len == cell::word32(*queue.rows()[i].len),
        queue@.table[i].flags == cell::word16(*queue.rows()[i].flags),
        queue@.table[i].next == cell::word16(*queue.rows()[i].next),
        queue.avail_ring().ring@.len() == queue@.queue_size,
        queue@.ring[i] == cell::word16(queue.avail_ring().ring@[i]),
        queue@.ring_count == cell::word16(*queue.avail_ring().idx),
        queue.used_ring().ring@.len() == queue@.queue_size,
{
    queue.law_state_is_in_memory();
    queue.law_used_ring_fits();
}

/// The contents of descriptors and of the available ring are what their words contain.
pub proof fn law_contents<'a>(row: DescriptorCells<'a>, copy: Descriptor, ring: AvailRing<'a>)
    ensures
        row@.addr == cell::word64(*old(row.addr)),
        row@.len == cell::word32(*old(row.len)),
        row@.flags == cell::word16(*old(row.flags)),
        row@.next == cell::word16(*old(row.next)),
        copy@.addr == cell::word64(copy.addr),
        copy@.len == cell::word32(copy.len),
        copy@.flags == cell::word16(copy.flags),
        copy@.next == cell::word16(copy.next),
        ring.entries().len() == old(ring.ring)@.len(),
        forall|i: int|
            0 <= i < old(ring.ring)@.len() ==> #[trigger] ring.entries()[i] == cell::word16(
                old(ring.ring)@[i],
            ),
        ring.count() == cell::word16(*old(ring.idx)),
{
}

/// The rows of a table are taken one by one.
pub proof fn law_rows<'a>(rows: Seq<DescriptorCells<'a>>, i: int)
    requires
        0 <= i < rows.len(),
    ensures
        DescriptorCells::contents(rows).len() == rows.len(),
        DescriptorCells::contents(rows)[i].addr == cell::word64(*rows[i].addr),
        DescriptorCells::contents(rows)[i].len == cell::word32(*rows[i].len),
        DescriptorCells::contents(rows)[i].flags == cell::word16(*rows[i].flags),
        DescriptorCells::contents(rows)[i].next == cell::word16(*rows[i].next),
{
}

/// The flags of a descriptor are single bits: 1, 2 and 4. A chain goes on where the first one is
/// set.
pub proof fn law_flag_bits(bits: u16)
    ensures
        NEXT == 1,
        WRITE == 2,
        INDIRECT == 4,
        DescFlags::continues(bits) <==> bits % 2 == 1,
{
    assert(bits & 1 == 1 <==> bits % 2 == 1) by (bit_vector);
}

/// A queue is set up whenever it is not in use and its size is a power of two and not above what
/// the device offers; a queue in use is refused as such, and a bad size as a bad parameter.
pub proof fn law_set_up(queue_used: bool, max_queue_size: u32, size: u16)
    ensures
        QueuePlan::refusal(queue_used, max_queue_size, size) is None <==> !queue_used
            && vstd::arithmetic::power2::is_pow2(size as int) && size <= max_queue_size,
        queue_used ==> QueuePlan::refusal(queue_used, max_queue_size, size) == Some(
            Error::AlreadyUsed,
        ),
        !queue_used && (!vstd::arithmetic::power2::is_pow2(size as int) || size > max_queue_size)
            ==> QueuePlan::refusal(queue_used, max_queue_size, size) == Some(Error::InvalidParam),
{
}

/// Sixteen is a power of two.
pub proof fn lemma_sixteen_is_pow2()
    ensures
        vstd::arithmetic::power2::is_pow2(16),
{
    reveal_with_fuel(vstd::arithmetic::power2::is_pow2, 6);
}

/// The layout of a queue: sixteen bytes for each descriptor, right behind them the available ring
/// of two bytes for each entry and six more, from the next page on the used ring of eight bytes
/// for each entry and six more, up to the end of a page. No page is left out or added.
pub proof fn law_layout_bytes(layout: VirtQueueLayout, n: int)
    requires
        layout.is_for(n),
        n >= 0,
    ensures
        layout.avail_offset == 16 * n,
        layout.used_offset % 4096 == 0,
        18 * n + 6 <= layout.used_offset < 18 * n + 6 + 4096,
        layout.size % 4096 == 0,
        layout.used_offset + 8 * n + 6 <= layout.size < layout.used_offset + 8 * n + 6 + 4096,
{
}

} // verus!
