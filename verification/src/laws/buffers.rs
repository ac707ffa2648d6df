//! Which buffers a queue hands out, stated on the bytes of guest memory.
//!
//! A path gives the indices of the descriptors that are read, in order. The
//! descriptor at index `i` of a table takes up the sixteen bytes from `16 * i`
//! on.

use crate::descriptor::VirtioQueuePayload;
use crate::get_work::{NextWorkView, QueueCoreGetWork, QueueGetWorkInner};
use crate::laws::bits;
use crate::laws::bits::{bit_of, word16, word32, word64};
use crate::laws::chain;
use crate::laws::search;
use crate::laws::search::{published, read_slot, searched_from, search_asks_from};
use crate::laws::steps;
use crate::laws::work;
use crate::layout::{PackedDescriptor, SplitDescriptor};
use crate::memory::{QueueError, Region, Request, Step};
use crate::packed::{PackedQueueCompletionContext, PackedQueueGetWork};
use crate::queue::{QueueCompletionContext, QueueWorkView};
use crate::split::{SplitQueueCompletionContext, SplitQueueGetWork};
use vstd::arithmetic::div_mod::{lemma_mod_bound, lemma_small_mod};
use vstd::prelude::*;

verus! {

/// The flags of the descriptor at index `i` of a table: its last two bytes, if
/// it is packed, and the two before, if it is split.
pub open spec fn flags_at(packed: bool, table: Seq<u8>, i: int) -> int {
    word16(
        table,
        16 * i + if packed {
            14int
        } else {
            12
        },
    )
}

/// The buffer of the descriptor at index `i` of a table: its address in the first
/// eight bytes, its length in the next four, and whether it can be written in
/// bit 1 of the flags.
pub open spec fn buffer_at(packed: bool, table: Seq<u8>, i: int) -> VirtioQueuePayload {
    VirtioQueuePayload {
        address: word64(table, 16 * i) as u64,
        length: word32(table, 16 * i + 8) as u32,
        writeable: bit_of(flags_at(packed, table, i), 2),
    }
}

/// The index after that of the descriptor at index `i` of a table of `size`
/// descriptors: the next one around the table, if it is packed, and the one that
/// its last two bytes name, around the table, if it is split.
pub open spec fn index_after(packed: bool, size: int, table: Seq<u8>, i: int) -> int {
    (if packed {
        i + 1
    } else {
        word16(table, 16 * i + 14)
    }) % size
}

/// Whether a descriptor is followed by another by bit 0 of its flags.
pub open spec fn linked_at(packed: bool, table: Seq<u8>, i: int) -> bool {
    bit_of(flags_at(packed, table, i), 1)
}

/// Whether a descriptor stands for an indirect table: feature 28 is there, and
/// bit 2 of its flags is set.
pub open spec fn table_at(queue: QueueCoreGetWork, table: Seq<u8>, i: int) -> bool {
    bit_of(queue.features.bank0.bits as int, 0x1000_0000) && bit_of(
        flags_at(queue.inner is Packed, table, i),
        4,
    )
}

/// How many descriptors a chain in a table of `size` may have.
pub open spec fn limit(size: int) -> int {
    if size < 128 {
        size
    } else {
        128
    }
}

/// Whether the index at `k` of a path follows the one before.
pub open spec fn is_step(
    packed: bool,
    size: int,
    mem: spec_fn(int, Region) -> Seq<u8>,
    from: int,
    region: Region,
    path: Seq<int>,
    k: int,
) -> bool {
    path[k] == index_after(packed, size, mem(from + k - 1, region), path[k - 1])
}

/// Whether the indices, read from number `from` on, are those of a chain that
/// begins at `head`, each following the one before.
pub open spec fn is_path(
    packed: bool,
    size: int,
    mem: spec_fn(int, Region) -> Seq<u8>,
    from: int,
    region: Region,
    head: int,
    path: Seq<int>,
) -> bool {
    &&& path.len() > 0 ==> path[0] == head
    &&& forall|k: int|
        #![trigger path[k]]
        0 <= k < path.len() ==> 0 <= path[k] <= 0xffff && 16 * path[k] + 16 <= mem(
            from + k,
            region,
        ).len()
    &&& forall|k: int|
        0 < k < path.len() ==> #[trigger] is_step(packed, size, mem, from, region, path, k)
}

/// The buffers of the descriptors of a path.
pub open spec fn buffers_on(
    packed: bool,
    mem: spec_fn(int, Region) -> Seq<u8>,
    from: int,
    region: Region,
    path: Seq<int>,
) -> Seq<VirtioQueuePayload> {
    Seq::new(path.len(), |k: int| buffer_at(packed, mem(from + k, region), path[k]))
}

/// The reads of the descriptors of a path.
pub open spec fn reads(region: Region, path: Seq<int>) -> Seq<Request> {
    Seq::new(path.len(), |k: int| read_slot(region, path[k]))
}

/// The bytes of the descriptors of a path.
spec fn slots(
    mem: spec_fn(int, Region) -> Seq<u8>,
    from: int,
    region: Region,
    path: Seq<int>,
) -> Seq<Seq<u8>> {
    Seq::new(
        path.len(),
        |k: int| mem(from + k, region).subrange(16 * path[k], 16 * path[k] + 16),
    )
}

/// The bytes at an index of a table hold what the table holds there.
proof fn lemma_slot(queue: QueueCoreGetWork, table: Seq<u8>, i: int)
    requires
        0 <= i,
        16 * i + 16 <= table.len(),
    ensures
        ({
            let packed = queue.inner is Packed;
            let slot = table.subrange(16 * i, 16 * i + 16);
            &&& slot.len() == 16
            &&& chain::flags_of(queue, slot).bits == flags_at(packed, table, i)
            &&& chain::buffer_of(queue, slot) == buffer_at(packed, table, i)
            &&& chain::flags_of(queue, slot).next() == linked_at(packed, table, i)
            &&& chain::flags_of(queue, slot).indirect() == bit_of(flags_at(packed, table, i), 4)
            &&& chain::stands_for_table(queue, slot) == table_at(queue, table, i)
            &&& SplitDescriptor::of_bytes(slot).next == word16(table, 16 * i + 14)
            &&& PackedDescriptor::of_bytes(slot).buffer_id == word16(table, 16 * i + 12)
        }),
{
    let slot = table.subrange(16 * i, 16 * i + 16);
    bits::law_descriptor_fields(slot);
    bits::law_descriptor_flag_bits(chain::flags_of(queue, slot));
    bits::law_feature_bits(queue.features);
    assert(word64(slot, 0) == word64(table, 16 * i));
    assert(word32(slot, 8) == word32(table, 16 * i + 8));
}

/// Whether all the descriptors of a path in the queue are linked to another, and
/// none stands for an indirect table.
pub open spec fn all_linked(
    queue: QueueCoreGetWork,
    mem: spec_fn(int, Region) -> Seq<u8>,
    from: int,
    path: Seq<int>,
) -> bool {
    forall|k: int|
        #![trigger path[k]]
        0 <= k < path.len() ==> linked_at(
            queue.inner is Packed,
            mem(from + k, Region::Descriptors),
            path[k],
        ) && !table_at(queue, mem(from + k, Region::Descriptors), path[k])
}

/// Whether a chain of the queue can begin at `head`: on a packed queue, the head
/// is a position of the ring.
pub open spec fn can_begin_at(queue: QueueCoreGetWork, head: int) -> bool {
    &&& queue.wf()
    &&& 0 <= head <= 0xffff
    &&& queue.inner is Packed ==> head < queue.queue_size
}

/// What follows the last descriptor of a path in the queue.
proof fn lemma_next_on_path(
    queue: QueueCoreGetWork,
    head: int,
    mem: spec_fn(int, Region) -> Seq<u8>,
    from: int,
    path: Seq<int>,
)
    requires
        can_begin_at(queue, head),
        is_path(
            queue.inner is Packed,
            queue.queue_size as int,
            mem,
            from,
            Region::Descriptors,
            head,
            path,
        ),
    ensures
        ({
            let entries = slots(mem, from, Region::Descriptors, path);
            let next = chain::index_after(queue, head as u16, entries);
            if path.len() == 0 {
                next == head
            } else {
                next == index_after(
                    queue.inner is Packed,
                    queue.queue_size as int,
                    mem(from + path.len() - 1, Region::Descriptors),
                    path.last(),
                )
            }
        }),
        queue.inner is Packed ==> forall|k: int|
            0 <= k < path.len() ==> #[trigger] path[k] == (head + k) % queue.queue_size as int,
    decreases path.len(),
{
    let size = queue.queue_size as int;
    if path.len() > 0 {
        let before = path.drop_last();
        lemma_drop_last_is_path(
            queue.inner is Packed,
            size,
            mem,
            from,
            Region::Descriptors,
            head,
            path,
        );
        lemma_next_on_path(queue, head, mem, from, before);
        let last = path.len() - 1;
        let table = mem(from + last, Region::Descriptors);
        assert(path[last] == path.last());
        lemma_slot(queue, table, path.last());
        let entries = slots(mem, from, Region::Descriptors, path);
        assert(entries.last() == table.subrange(16 * path.last(), 16 * path.last() + 16));
        if queue.inner is Packed {
            if last == 0 {
                lemma_small_mod(head as nat, size as nat);
                assert(path[last] == (head + last) % size);
            } else {
                assert(before[last - 1] == path[last - 1]);
                vstd::arithmetic::div_mod::lemma_add_mod_noop_right(1, head + last - 1, size);
                assert(path[last] == (head + last) % size);
            }
            vstd::arithmetic::div_mod::lemma_add_mod_noop_right(1, head + last, size);
            assert forall|k: int| 0 <= k < path.len() implies #[trigger] path[k] == (head + k)
                % size by {
                if k < last {
                    assert(before[k] == path[k]);
                }
            }
        }
    }
}

/// The reads of a path end with that of its last descriptor.
proof fn lemma_reads(region: Region, path: Seq<int>)
    requires
        path.len() > 0,
    ensures
        reads(region, path) == reads(region, path.drop_last()).push(
            read_slot(region, path.last()),
        ),
{
    assert(reads(region, path) =~= reads(region, path.drop_last()).push(
        read_slot(region, path.last()),
    ));
}

/// A path without its last descriptor is a path.
proof fn lemma_drop_last_is_path(
    packed: bool,
    size: int,
    mem: spec_fn(int, Region) -> Seq<u8>,
    from: int,
    region: Region,
    head: int,
    path: Seq<int>,
)
    requires
        path.len() > 0,
        is_path(packed, size, mem, from, region, head, path),
    ensures
        is_path(packed, size, mem, from, region, head, path.drop_last()),
        slots(mem, from, region, path) == slots(mem, from, region, path.drop_last()).push(
            mem(from + path.len() - 1, region).subrange(16 * path.last(), 16 * path.last() + 16),
        ),
        path.last() == path[path.len() - 1],
        0 <= path.last() <= 0xffff,
        16 * path.last() + 16 <= mem(from + path.len() - 1, region).len(),
        path.len() == 1 ==> path.last() == head,
        path.len() > 1 ==> path.last() == index_after(
            packed,
            size,
            mem(from + path.len() - 2, region),
            path.drop_last().last(),
        ),
{
    let before = path.drop_last();
    assert forall|k: int|
        #![trigger before[k]]
        0 <= k < before.len() implies 0 <= before[k] <= 0xffff && 16 * before[k] + 16 <= mem(
        from + k,
        region,
    ).len() by {
        assert(before[k] == path[k]);
    }
    assert forall|k: int| 0 < k < before.len() implies #[trigger] is_step(
        packed,
        size,
        mem,
        from,
        region,
        before,
        k,
    ) by {
        assert(is_step(packed, size, mem, from, region, path, k));
    }
    if path.len() > 1 {
        assert(is_step(packed, size, mem, from, region, path, path.len() - 1));
        assert(path[path.len() - 1] == path.last());
        assert(path.drop_last().last() == path[path.len() - 2]);
    }
    assert(path[path.len() - 1] == path.last());
    assert(slots(mem, from, region, path) =~= slots(mem, from, region, before).push(
        mem(from + path.len() - 1, region).subrange(16 * path.last(), 16 * path.last() + 16),
    ));
}

/// The buffers of the bytes of a path are the buffers on the path.
proof fn lemma_buffers_on(
    queue: QueueCoreGetWork,
    size: int,
    mem: spec_fn(int, Region) -> Seq<u8>,
    from: int,
    region: Region,
    head: int,
    path: Seq<int>,
)
    requires
        is_path(queue.inner is Packed, size, mem, from, region, head, path),
    ensures
        chain::buffers_of(queue, slots(mem, from, region, path)) == buffers_on(
            queue.inner is Packed,
            mem,
            from,
            region,
            path,
        ),
{
    assert forall|k: int| 0 <= k < path.len() implies chain::buffers_of(
        queue,
        slots(mem, from, region, path),
    )[k] == #[trigger] buffers_on(queue.inner is Packed, mem, from, region, path)[k] by {
        assert(0 <= path[k]);
        lemma_slot(queue, mem(from + k, region), path[k]);
    }
    assert(chain::buffers_of(queue, slots(mem, from, region, path)) =~= buffers_on(
        queue.inner is Packed,
        mem,
        from,
        region,
        path,
    ));
}

proof fn lemma_drop_last_linked(
    queue: QueueCoreGetWork,
    mem: spec_fn(int, Region) -> Seq<u8>,
    from: int,
    path: Seq<int>,
)
    requires
        path.len() > 0,
        all_linked(queue, mem, from, path),
    ensures
        all_linked(queue, mem, from, path.drop_last()),
        ({
            let table = mem(from + path.len() - 1, Region::Descriptors);
            &&& linked_at(queue.inner is Packed, table, path.last())
            &&& !table_at(queue, table, path.last())
        }),
{
    let before = path.drop_last();
    assert forall|k: int| #![trigger before[k]] 0 <= k < before.len() implies linked_at(
        queue.inner is Packed,
        mem(from + k, Region::Descriptors),
        before[k],
    ) && !table_at(queue, mem(from + k, Region::Descriptors), before[k]) by {
        assert(before[k] == path[k]);
    }
    assert(path[path.len() - 1] == path.last());
}

/// The search while it follows a path in the queue.
proof fn lemma_follows_path<E>(
    queue: QueueCoreGetWork,
    head: int,
    mem: spec_fn(int, Region) -> Seq<u8>,
    from: int,
    path: Seq<int>,
)
    requires
        can_begin_at(queue, head),
        is_path(
            queue.inner is Packed,
            queue.queue_size as int,
            mem,
            from,
            Region::Descriptors,
            head,
            path,
        ),
        all_linked(queue, mem, from, path),
        path.len() < limit(queue.queue_size as int),
    ensures
        searched_from(queue, queue.enter_chain::<E>(head as u16), mem, from, path.len()) == (
            queue,
            chain::reading::<E>(
                queue,
                head as u16,
                slots(mem, from, Region::Descriptors, path),
            ),
        ),
        search_asks_from(queue, queue.enter_chain::<E>(head as u16), mem, from, path.len())
            == reads(Region::Descriptors, path),
    decreases path.len(),
{
    let start = queue.enter_chain::<E>(head as u16);
    let packed = queue.inner is Packed;
    let size = queue.queue_size as int;
    if path.len() == 0 {
        search::lemma_search_once::<E>(queue, start, mem, from, 0);
        steps::lemma_begins::<E>(queue, head as u16);
        assert(slots(mem, from, Region::Descriptors, path) =~= Seq::empty());
        assert(reads(Region::Descriptors, path) =~= Seq::empty());
    } else {
        let before = path.drop_last();
        let table = mem(from + before.len(), Region::Descriptors);
        lemma_drop_last_is_path(packed, size, mem, from, Region::Descriptors, head, path);
        lemma_drop_last_linked(queue, mem, from, path);
        lemma_follows_path::<E>(queue, head, mem, from, before);
        lemma_next_on_path(queue, head, mem, from, before);
        let entries = slots(mem, from, Region::Descriptors, before);
        let entry = table.subrange(16 * path.last(), 16 * path.last() + 16);
        lemma_slot(queue, table, path.last());
        lemma_reads(Region::Descriptors, path);
        steps::lemma_link::<E>(queue, head as u16, entries, entry);
        steps::lemma_search_next::<E>(
            queue,
            start,
            mem,
            from,
            before.len(),
            chain::reading(queue, head as u16, entries),
            steps::next_request(queue, head as u16, entries),
            entry,
            (queue, chain::reading(queue, head as u16, entries.push(entry))),
        );
    }
}

/// Whether a path in the queue is a whole chain that begins at `head`: all its
/// descriptors but the last are linked to another, the last is not, and none
/// stands for an indirect table.
pub open spec fn is_whole_path(
    queue: QueueCoreGetWork,
    head: int,
    mem: spec_fn(int, Region) -> Seq<u8>,
    from: int,
    path: Seq<int>,
) -> bool {
    &&& path.len() > 0
    &&& is_path(
        queue.inner is Packed,
        queue.queue_size as int,
        mem,
        from,
        Region::Descriptors,
        head,
        path,
    )
    &&& all_linked(queue, mem, from, path.drop_last())
    &&& !linked_at(
        queue.inner is Packed,
        mem(from + path.len() - 1, Region::Descriptors),
        path.last(),
    )
    &&& !table_at(queue, mem(from + path.len() - 1, Region::Descriptors), path.last())
}

/// Once a chain has been found, its descriptors are read along its links, and
/// its buffers are those that their bytes hold, in order.
pub proof fn law_reads_buffers<E>(
    queue: QueueCoreGetWork,
    head: int,
    mem: spec_fn(int, Region) -> Seq<u8>,
    from: int,
    path: Seq<int>,
)
    requires
        can_begin_at(queue, head),
        is_whole_path(queue, head, mem, from, path),
        path.len() <= limit(queue.queue_size as int),
    ensures
        searched_from(queue, queue.enter_chain::<E>(head as u16), mem, from, path.len()) == (
            queue,
            queue.leave_chain::<E>(
                head as u16,
                buffers_on(queue.inner is Packed, mem, from, Region::Descriptors, path),
            ),
        ),
        search_asks_from(queue, queue.enter_chain::<E>(head as u16), mem, from, path.len())
            == reads(Region::Descriptors, path),
{
    let start = queue.enter_chain::<E>(head as u16);
    let packed = queue.inner is Packed;
    let size = queue.queue_size as int;
    let before = path.drop_last();
    let table = mem(from + before.len(), Region::Descriptors);
    lemma_drop_last_is_path(packed, size, mem, from, Region::Descriptors, head, path);
    lemma_follows_path::<E>(queue, head, mem, from, before);
    lemma_next_on_path(queue, head, mem, from, before);
    let entries = slots(mem, from, Region::Descriptors, before);
    let entry = table.subrange(16 * path.last(), 16 * path.last() + 16);
    lemma_slot(queue, table, path.last());
    lemma_reads(Region::Descriptors, path);
    steps::lemma_last::<E>(queue, head as u16, entries, entry);
    steps::lemma_search_next::<E>(
        queue,
        start,
        mem,
        from,
        before.len(),
        chain::reading(queue, head as u16, entries),
        steps::next_request(queue, head as u16, entries),
        entry,
        (
            queue,
            queue.leave_chain(head as u16, chain::buffers_of(queue, entries.push(entry))),
        ),
    );
    lemma_buffers_on(queue, size, mem, from, Region::Descriptors, head, path);
}

/// A chain whose descriptors are linked on and on is given up as too long after
/// as many of them as the queue has, and after 128 at most.
pub proof fn law_gives_up_on_path<E>(
    queue: QueueCoreGetWork,
    head: int,
    mem: spec_fn(int, Region) -> Seq<u8>,
    from: int,
    path: Seq<int>,
)
    requires
        can_begin_at(queue, head),
        is_path(
            queue.inner is Packed,
            queue.queue_size as int,
            mem,
            from,
            Region::Descriptors,
            head,
            path,
        ),
        all_linked(queue, mem, from, path),
        path.len() == limit(queue.queue_size as int),
    ensures
        searched_from(queue, queue.enter_chain::<E>(head as u16), mem, from, path.len()) == (
            queue,
            Step::<NextWorkView, Option<QueueWorkView>, E>::Done(Err(QueueError::TooLong)),
        ),
{
    let start = queue.enter_chain::<E>(head as u16);
    let packed = queue.inner is Packed;
    let size = queue.queue_size as int;
    let before = path.drop_last();
    let table = mem(from + before.len(), Region::Descriptors);
    lemma_drop_last_is_path(packed, size, mem, from, Region::Descriptors, head, path);
    lemma_drop_last_linked(queue, mem, from, path);
    lemma_follows_path::<E>(queue, head, mem, from, before);
    lemma_next_on_path(queue, head, mem, from, before);
    let entries = slots(mem, from, Region::Descriptors, before);
    let entry = table.subrange(16 * path.last(), 16 * path.last() + 16);
    lemma_slot(queue, table, path.last());
    steps::lemma_too_long::<E>(queue, head as u16, entries, entry);
    steps::lemma_search_next::<E>(
        queue,
        start,
        mem,
        from,
        before.len(),
        chain::reading(queue, head as u16, entries),
        steps::next_request(queue, head as u16, entries),
        entry,
        (queue, Step::Done(Err(QueueError::TooLong))),
    );
}

/// How many descriptors an indirect table of `length` bytes has: one for every
/// sixteen bytes, of which 65535 count at most.
pub open spec fn entries_in(length: int) -> int {
    (if length < 0xffff {
        length
    } else {
        0xffff
    }) / 16
}

/// How many descriptors a chain may have that enters an indirect table of `size`
/// descriptors after `read` descriptors of the queue.
pub open spec fn limit_in_table(size: int, read: int) -> int {
    if read < limit(size) {
        limit(size)
    } else {
        128
    }
}

/// Whether a descriptor at index `i` of an indirect table of `size` descriptors
/// is followed by another: by bit 0 of its flags, or, if it is packed, because
/// the table goes on.
pub open spec fn goes_on_at(packed: bool, size: int, table: Seq<u8>, i: int) -> bool {
    linked_at(packed, table, i) || (packed && i + 1 < size)
}

/// Whether all the descriptors of a path in an indirect table are followed by
/// another, and none has bit 2 of its flags set.
pub open spec fn all_linked_in_table(
    packed: bool,
    size: int,
    mem: spec_fn(int, Region) -> Seq<u8>,
    from: int,
    path: Seq<int>,
) -> bool {
    forall|k: int|
        #![trigger path[k]]
        0 <= k < path.len() ==> goes_on_at(packed, size, mem(from + k, Region::Indirect), path[k])
            && !bit_of(flags_at(packed, mem(from + k, Region::Indirect), path[k]), 4)
}

/// Whether a path in the queue leads into an indirect table: its last descriptor
/// stands for one, and those before are linked to another and do not.
pub open spec fn leads_into_table(
    queue: QueueCoreGetWork,
    head: int,
    mem: spec_fn(int, Region) -> Seq<u8>,
    from: int,
    path: Seq<int>,
) -> bool {
    &&& path.len() > 0
    &&& is_path(
        queue.inner is Packed,
        queue.queue_size as int,
        mem,
        from,
        Region::Descriptors,
        head,
        path,
    )
    &&& all_linked(queue, mem, from, path.drop_last())
    &&& table_at(queue, mem(from + path.len() - 1, Region::Descriptors), path.last())
}

/// The buffer of the last descriptor of a path in the queue: where the indirect
/// table lies, if the path leads into one.
pub open spec fn last_buffer(
    packed: bool,
    mem: spec_fn(int, Region) -> Seq<u8>,
    from: int,
    path: Seq<int>,
) -> VirtioQueuePayload {
    buffer_at(packed, mem(from + path.len() - 1, Region::Descriptors), path.last())
}

/// The bytes of the last descriptor of a path in the queue.
spec fn last_slot(
    mem: spec_fn(int, Region) -> Seq<u8>,
    from: int,
    path: Seq<int>,
) -> Seq<u8> {
    mem(from + path.len() - 1, Region::Descriptors).subrange(
        16 * path.last(),
        16 * path.last() + 16,
    )
}

/// The search at the beginning of the indirect table that a path leads into.
spec fn at_table<E>(
    queue: QueueCoreGetWork,
    head: int,
    mem: spec_fn(int, Region) -> Seq<u8>,
    from: int,
    path: Seq<int>,
) -> Step<NextWorkView, Option<QueueWorkView>, E> {
    chain::reading_table(
        queue,
        head as u16,
        slots(mem, from, Region::Descriptors, path.drop_last()),
        last_slot(mem, from, path),
        Seq::empty(),
    )
}

/// The search takes the indirect table that a path leads into: the range that
/// the last descriptor of the path names, and no other.
proof fn lemma_takes_table<E>(
    queue: QueueCoreGetWork,
    head: int,
    mem: spec_fn(int, Region) -> Seq<u8>,
    from: int,
    path: Seq<int>,
)
    requires
        can_begin_at(queue, head),
        leads_into_table(queue, head, mem, from, path),
        path.len() <= limit(queue.queue_size as int),
    ensures
        ({
            let start = queue.enter_chain::<E>(head as u16);
            let table = last_buffer(queue.inner is Packed, mem, from, path);
            &&& searched_from(queue, start, mem, from, path.len() + 1) == (
                queue,
                at_table::<E>(queue, head, mem, from, path),
            )
            &&& search_asks_from(queue, start, mem, from, path.len() + 1) == reads(
                Region::Descriptors,
                path,
            ).push(
                Request::Subrange {
                    region: Region::Indirect,
                    addr: table.address,
                    len: table.length as u64,
                },
            )
            &&& chain::table_size_of(queue, last_slot(mem, from, path)) == entries_in(
                table.length as int,
            )
            &&& chain::buffer_of(queue, last_slot(mem, from, path)) == table
        }),
{
    let start = queue.enter_chain::<E>(head as u16);
    let packed = queue.inner is Packed;
    let size = queue.queue_size as int;
    let before = path.drop_last();
    let table = mem(from + before.len(), Region::Descriptors);
    lemma_drop_last_is_path(packed, size, mem, from, Region::Descriptors, head, path);
    lemma_follows_path::<E>(queue, head, mem, from, before);
    lemma_next_on_path(queue, head, mem, from, before);
    let direct = slots(mem, from, Region::Descriptors, before);
    let entry = last_slot(mem, from, path);
    lemma_slot(queue, table, path.last());
    lemma_reads(Region::Descriptors, path);
    steps::lemma_to_table::<E>(queue, head as u16, direct, entry);
    steps::lemma_search_next::<E>(
        queue,
        start,
        mem,
        from,
        before.len(),
        chain::reading(queue, head as u16, direct),
        steps::next_request(queue, head as u16, direct),
        entry,
        (queue, steps::taking_table(queue, head as u16, direct, entry)),
    );
    let granted = Seq::empty();
    steps::lemma_in_table::<E>(queue, head as u16, direct, entry, granted);
    steps::lemma_search_next::<E>(
        queue,
        start,
        mem,
        from,
        path.len(),
        steps::taking_table(queue, head as u16, direct, entry),
        Request::Subrange {
            region: Region::Indirect,
            addr: chain::buffer_of(queue, entry).address,
            len: chain::buffer_of(queue, entry).length as u64,
        },
        granted,
        (queue, at_table::<E>(queue, head, mem, from, path)),
    );
}

/// What follows the last descriptor of a path in an indirect table.
proof fn lemma_next_in_table(
    queue: QueueCoreGetWork,
    size: u16,
    mem: spec_fn(int, Region) -> Seq<u8>,
    from: int,
    path: Seq<int>,
)
    requires
        size > 0,
        is_path(queue.inner is Packed, size as int, mem, from, Region::Indirect, 0, path),
    ensures
        ({
            let entries = slots(mem, from, Region::Indirect, path);
            let next = chain::table_index_after(queue, size, entries);
            if path.len() == 0 {
                next == 0
            } else {
                next == index_after(
                    queue.inner is Packed,
                    size as int,
                    mem(from + path.len() - 1, Region::Indirect),
                    path.last(),
                )
            }
        }),
        queue.inner is Packed && path.len() > 0 ==> path.last() == (path.len() - 1) % size as int,
    decreases path.len(),
{
    if path.len() > 0 {
        let packed = queue.inner is Packed;
        let before = path.drop_last();
        lemma_drop_last_is_path(packed, size as int, mem, from, Region::Indirect, 0, path);
        lemma_next_in_table(queue, size, mem, from, before);
        let last = path.len() - 1;
        let table = mem(from + last, Region::Indirect);
        lemma_slot(queue, table, path.last());
        let entries = slots(mem, from, Region::Indirect, path);
        assert(entries.last() == table.subrange(16 * path.last(), 16 * path.last() + 16));
        if packed {
            if last == 0 {
                lemma_small_mod(0, size as nat);
            } else {
                vstd::arithmetic::div_mod::lemma_add_mod_noop_right(1, last - 1, size as int);
            }
            assert(path.last() == last % size as int);
            vstd::arithmetic::div_mod::lemma_add_mod_noop_right(1, last, size as int);
        }
    }
}

proof fn lemma_drop_last_linked_in_table(
    packed: bool,
    size: int,
    mem: spec_fn(int, Region) -> Seq<u8>,
    from: int,
    path: Seq<int>,
)
    requires
        path.len() > 0,
        all_linked_in_table(packed, size, mem, from, path),
    ensures
        all_linked_in_table(packed, size, mem, from, path.drop_last()),
        ({
            let table = mem(from + path.len() - 1, Region::Indirect);
            &&& goes_on_at(packed, size, table, path.last())
            &&& !bit_of(flags_at(packed, table, path.last()), 4)
        }),
{
    let before = path.drop_last();
    assert forall|k: int| #![trigger before[k]] 0 <= k < before.len() implies goes_on_at(
        packed,
        size,
        mem(from + k, Region::Indirect),
        before[k],
    ) && !bit_of(flags_at(packed, mem(from + k, Region::Indirect), before[k]), 4) by {
        assert(before[k] == path[k]);
    }
    assert(path[path.len() - 1] == path.last());
}

/// The search while it follows a path in an indirect table.
proof fn lemma_follows_table_path<E>(
    queue: QueueCoreGetWork,
    head: u16,
    direct: Seq<Seq<u8>>,
    entry: Seq<u8>,
    mem: spec_fn(int, Region) -> Seq<u8>,
    from: int,
    path: Seq<int>,
)
    requires
        ({
            let size = chain::table_size_of(queue, entry);
            let packed = queue.inner is Packed;
            &&& size > 0
            &&& is_path(packed, size as int, mem, from, Region::Indirect, 0, path)
            &&& all_linked_in_table(packed, size as int, mem, from, path)
            &&& direct.len() + path.len() < limit_in_table(size as int, direct.len() as int)
        }),
    ensures
        ({
            let start = chain::reading_table::<E>(queue, head, direct, entry, Seq::empty());
            &&& searched_from(queue, start, mem, from, path.len()) == (
                queue,
                chain::reading_table::<E>(
                    queue,
                    head,
                    direct,
                    entry,
                    slots(mem, from, Region::Indirect, path),
                ),
            )
            &&& search_asks_from(queue, start, mem, from, path.len()) == reads(
                Region::Indirect,
                path,
            )
        }),
    decreases path.len(),
{
    let start = chain::reading_table::<E>(queue, head, direct, entry, Seq::empty());
    let size = chain::table_size_of(queue, entry);
    let packed = queue.inner is Packed;
    if path.len() == 0 {
        search::lemma_search_once::<E>(queue, start, mem, from, 0);
        assert(slots(mem, from, Region::Indirect, path) =~= Seq::empty());
        assert(reads(Region::Indirect, path) =~= Seq::empty());
    } else {
        let before = path.drop_last();
        let table = mem(from + before.len(), Region::Indirect);
        lemma_drop_last_is_path(packed, size as int, mem, from, Region::Indirect, 0, path);
        lemma_drop_last_linked_in_table(packed, size as int, mem, from, path);
        lemma_follows_table_path::<E>(queue, head, direct, entry, mem, from, before);
        lemma_next_in_table(queue, size, mem, from, before);
        lemma_next_in_table(queue, size, mem, from, path);
        let entries = slots(mem, from, Region::Indirect, before);
        let last = table.subrange(16 * path.last(), 16 * path.last() + 16);
        lemma_slot(queue, table, path.last());
        lemma_reads(Region::Indirect, path);
        assert(entries.push(last)[entries.len() as int] == last);
        steps::lemma_table_link::<E>(queue, head, direct, entry, entries, last);
        steps::lemma_search_next::<E>(
            queue,
            start,
            mem,
            from,
            before.len(),
            chain::reading_table(queue, head, direct, entry, entries),
            steps::next_table_request(queue, entry, entries),
            last,
            (queue, chain::reading_table(queue, head, direct, entry, entries.push(last))),
        );
    }
}

/// Whether a path in an indirect table of `size` descriptors is a whole chain:
/// all its descriptors but the last are followed by another, the last is not,
/// and none has bit 2 of its flags set.
pub open spec fn is_whole_path_in_table(
    packed: bool,
    size: int,
    mem: spec_fn(int, Region) -> Seq<u8>,
    from: int,
    path: Seq<int>,
) -> bool {
    &&& path.len() > 0
    &&& is_path(packed, size, mem, from, Region::Indirect, 0, path)
    &&& all_linked_in_table(packed, size, mem, from, path.drop_last())
    &&& !goes_on_at(packed, size, mem(from + path.len() - 1, Region::Indirect), path.last())
    &&& !bit_of(
        flags_at(packed, mem(from + path.len() - 1, Region::Indirect), path.last()),
        4,
    )
}

/// A chain that leads into an indirect table goes on with the first descriptor of
/// the table, and along its links there. Its buffers are those of its descriptors
/// before the one that stands for the table, and then those of the table, as
/// their bytes hold them, in order.
pub proof fn law_reads_buffers_of_table<E>(
    queue: QueueCoreGetWork,
    head: int,
    mem: spec_fn(int, Region) -> Seq<u8>,
    from: int,
    path: Seq<int>,
    in_table: Seq<int>,
)
    requires
        can_begin_at(queue, head),
        leads_into_table(queue, head, mem, from, path),
        path.len() <= limit(queue.queue_size as int),
        ({
            let packed = queue.inner is Packed;
            let size = entries_in(last_buffer(packed, mem, from, path).length as int);
            &&& size > 0
            &&& is_whole_path_in_table(packed, size, mem, from + path.len() + 1, in_table)
            &&& path.len() - 1 + in_table.len() <= limit_in_table(size, path.len() - 1)
        }),
    ensures
        ({
            let packed = queue.inner is Packed;
            let start = queue.enter_chain::<E>(head as u16);
            let table = last_buffer(packed, mem, from, path);
            let n = path.len() + 1 + in_table.len();
            &&& searched_from(queue, start, mem, from, n) == (
                queue,
                queue.leave_chain::<E>(
                    head as u16,
                    buffers_on(packed, mem, from, Region::Descriptors, path.drop_last())
                        + buffers_on(
                        packed,
                        mem,
                        from + path.len() + 1,
                        Region::Indirect,
                        in_table,
                    ),
                ),
            )
            &&& search_asks_from(queue, start, mem, from, path.len() + 1) == reads(
                Region::Descriptors,
                path,
            ).push(
                Request::Subrange {
                    region: Region::Indirect,
                    addr: table.address,
                    len: table.length as u64,
                },
            )
        }),
{
    let packed = queue.inner is Packed;
    let start = queue.enter_chain::<E>(head as u16);
    let direct = slots(mem, from, Region::Descriptors, path.drop_last());
    let entry = last_slot(mem, from, path);
    let size = chain::table_size_of(queue, entry);
    let inside = from + path.len() + 1;
    let before = in_table.drop_last();
    lemma_takes_table::<E>(queue, head, mem, from, path);
    search::lemma_search_append::<E>(queue, start, mem, from, path.len() + 1, in_table.len());
    lemma_drop_last_is_path(packed, size as int, mem, inside, Region::Indirect, 0, in_table);
    lemma_follows_table_path::<E>(queue, head as u16, direct, entry, mem, inside, before);
    lemma_next_in_table(queue, size, mem, inside, before);
    lemma_next_in_table(queue, size, mem, inside, in_table);
    let table = mem(inside + before.len(), Region::Indirect);
    let entries = slots(mem, inside, Region::Indirect, before);
    let last = table.subrange(16 * in_table.last(), 16 * in_table.last() + 16);
    lemma_slot(queue, table, in_table.last());
    assert(entries.push(last)[entries.len() as int] == last);
    steps::lemma_table_last::<E>(queue, head as u16, direct, entry, entries, last);
    steps::lemma_search_next::<E>(
        queue,
        at_table::<E>(queue, head, mem, from, path),
        mem,
        inside,
        before.len(),
        chain::reading_table(queue, head as u16, direct, entry, entries),
        steps::next_table_request(queue, entry, entries),
        last,
        (
            queue,
            queue.leave_chain(
                head as u16,
                chain::buffers_of(queue, direct) + chain::buffers_of(queue, entries.push(last)),
            ),
        ),
    );
    lemma_drop_last_is_path(
        packed,
        queue.queue_size as int,
        mem,
        from,
        Region::Descriptors,
        head,
        path,
    );
    lemma_buffers_on(
        queue,
        queue.queue_size as int,
        mem,
        from,
        Region::Descriptors,
        head,
        path.drop_last(),
    );
    lemma_buffers_on(queue, size as int, mem, inside, Region::Indirect, 0, in_table);
}

/// A chain in an indirect table that goes on and on is given up as too long.
pub proof fn law_gives_up_in_table<E>(
    queue: QueueCoreGetWork,
    head: int,
    mem: spec_fn(int, Region) -> Seq<u8>,
    from: int,
    path: Seq<int>,
    in_table: Seq<int>,
)
    requires
        can_begin_at(queue, head),
        leads_into_table(queue, head, mem, from, path),
        path.len() <= limit(queue.queue_size as int),
        in_table.len() > 0,
        ({
            let packed = queue.inner is Packed;
            let size = entries_in(last_buffer(packed, mem, from, path).length as int);
            let inside = from + path.len() + 1;
            &&& size > 0
            &&& is_path(packed, size, mem, inside, Region::Indirect, 0, in_table)
            &&& all_linked_in_table(packed, size, mem, inside, in_table)
            &&& path.len() - 1 + in_table.len() == limit_in_table(size, path.len() - 1)
        }),
    ensures
        searched_from(
            queue,
            queue.enter_chain::<E>(head as u16),
            mem,
            from,
            path.len() + 1 + in_table.len(),
        ) == (
            queue,
            Step::<NextWorkView, Option<QueueWorkView>, E>::Done(Err(QueueError::TooLong)),
        ),
{
    let packed = queue.inner is Packed;
    let start = queue.enter_chain::<E>(head as u16);
    let direct = slots(mem, from, Region::Descriptors, path.drop_last());
    let entry = last_slot(mem, from, path);
    let size = chain::table_size_of(queue, entry);
    let inside = from + path.len() + 1;
    let before = in_table.drop_last();
    lemma_takes_table::<E>(queue, head, mem, from, path);
    search::lemma_search_append::<E>(queue, start, mem, from, path.len() + 1, in_table.len());
    lemma_drop_last_is_path(packed, size as int, mem, inside, Region::Indirect, 0, in_table);
    lemma_drop_last_linked_in_table(packed, size as int, mem, inside, in_table);
    lemma_follows_table_path::<E>(queue, head as u16, direct, entry, mem, inside, before);
    lemma_next_in_table(queue, size, mem, inside, before);
    lemma_next_in_table(queue, size, mem, inside, in_table);
    let table = mem(inside + before.len(), Region::Indirect);
    let entries = slots(mem, inside, Region::Indirect, before);
    let last = table.subrange(16 * in_table.last(), 16 * in_table.last() + 16);
    lemma_slot(queue, table, in_table.last());
    assert(entries.push(last)[entries.len() as int] == last);
    steps::lemma_table_too_long::<E>(queue, head as u16, direct, entry, entries, last);
    steps::lemma_search_next::<E>(
        queue,
        at_table::<E>(queue, head, mem, from, path),
        mem,
        inside,
        before.len(),
        chain::reading_table(queue, head as u16, direct, entry, entries),
        steps::next_table_request(queue, entry, entries),
        last,
        (queue, Step::Done(Err(QueueError::TooLong))),
    );
}

/// A descriptor of an indirect table that has bit 2 of its flags set is refused,
/// at whatever place of the chain.
pub proof fn law_refuses_table_in_table<E>(
    queue: QueueCoreGetWork,
    head: int,
    mem: spec_fn(int, Region) -> Seq<u8>,
    from: int,
    path: Seq<int>,
    in_table: Seq<int>,
)
    requires
        can_begin_at(queue, head),
        leads_into_table(queue, head, mem, from, path),
        path.len() <= limit(queue.queue_size as int),
        in_table.len() > 0,
        ({
            let packed = queue.inner is Packed;
            let size = entries_in(last_buffer(packed, mem, from, path).length as int);
            let inside = from + path.len() + 1;
            &&& size > 0
            &&& is_path(packed, size, mem, inside, Region::Indirect, 0, in_table)
            &&& all_linked_in_table(packed, size, mem, inside, in_table.drop_last())
            &&& bit_of(
                flags_at(
                    packed,
                    mem(inside + in_table.len() - 1, Region::Indirect),
                    in_table.last(),
                ),
                4,
            )
            &&& path.len() - 1 + in_table.len() <= limit_in_table(size, path.len() - 1)
        }),
    ensures
        searched_from(
            queue,
            queue.enter_chain::<E>(head as u16),
            mem,
            from,
            path.len() + 1 + in_table.len(),
        ) == (
            queue,
            Step::<NextWorkView, Option<QueueWorkView>, E>::Done(Err(QueueError::DoubleIndirect)),
        ),
{
    let packed = queue.inner is Packed;
    let start = queue.enter_chain::<E>(head as u16);
    let direct = slots(mem, from, Region::Descriptors, path.drop_last());
    let entry = last_slot(mem, from, path);
    let size = chain::table_size_of(queue, entry);
    let inside = from + path.len() + 1;
    let before = in_table.drop_last();
    lemma_takes_table::<E>(queue, head, mem, from, path);
    search::lemma_search_append::<E>(queue, start, mem, from, path.len() + 1, in_table.len());
    lemma_drop_last_is_path(packed, size as int, mem, inside, Region::Indirect, 0, in_table);
    lemma_follows_table_path::<E>(queue, head as u16, direct, entry, mem, inside, before);
    lemma_next_in_table(queue, size, mem, inside, before);
    lemma_next_in_table(queue, size, mem, inside, in_table);
    let table = mem(inside + before.len(), Region::Indirect);
    let entries = slots(mem, inside, Region::Indirect, before);
    let last = table.subrange(16 * in_table.last(), 16 * in_table.last() + 16);
    lemma_slot(queue, table, in_table.last());
    assert(entries.push(last)[entries.len() as int] == last);
    steps::lemma_table_nested::<E>(queue, head as u16, direct, entry, entries, last);
    steps::lemma_search_next::<E>(
        queue,
        at_table::<E>(queue, head, mem, from, path),
        mem,
        inside,
        before.len(),
        chain::reading_table(queue, head as u16, direct, entry, entries),
        steps::next_table_request(queue, entry, entries),
        last,
        (queue, Step::Done(Err(QueueError::DoubleIndirect))),
    );
}

/// On a split queue the work is handed out once its buffers have been read: with
/// all of them, and under the index of its first descriptor.
pub proof fn law_split_hands_out<E>(
    queue: QueueCoreGetWork,
    head: u16,
    payload: Seq<VirtioQueuePayload>,
)
    requires
        queue.inner is Split,
    ensures
        queue.leave_chain::<E>(head, payload) == Step::<
            NextWorkView,
            Option<QueueWorkView>,
            E,
        >::Done(
            Ok(
                Some(
                    QueueWorkView {
                        context: QueueCompletionContext::Split(
                            SplitQueueCompletionContext { descriptor_index: head },
                        ),
                        payload,
                    },
                ),
            ),
        ),
{
}

/// Whether all the descriptors of a path in the ring are linked to another by bit
/// 0 of their flags.
pub open spec fn all_linked_in_ring(
    mem: spec_fn(int, Region) -> Seq<u8>,
    from: int,
    path: Seq<int>,
) -> bool {
    forall|k: int|
        #![trigger path[k]]
        0 <= k < path.len() ==> linked_at(true, mem(from + k, Region::Descriptors), path[k])
}

proof fn lemma_drop_last_linked_in_ring(
    mem: spec_fn(int, Region) -> Seq<u8>,
    from: int,
    path: Seq<int>,
)
    requires
        path.len() > 0,
        all_linked_in_ring(mem, from, path),
    ensures
        all_linked_in_ring(mem, from, path.drop_last()),
        linked_at(true, mem(from + path.len() - 1, Region::Descriptors), path.last()),
{
    let before = path.drop_last();
    assert forall|k: int| #![trigger before[k]] 0 <= k < before.len() implies linked_at(
        true,
        mem(from + k, Region::Descriptors),
        before[k],
    ) by {
        assert(before[k] == path[k]);
    }
    assert(path[path.len() - 1] == path.last());
}

/// The search while it counts the descriptors on a path in the ring.
proof fn lemma_counts_path<E>(
    queue: QueueCoreGetWork,
    head: int,
    payload: Seq<VirtioQueuePayload>,
    mem: spec_fn(int, Region) -> Seq<u8>,
    from: int,
    path: Seq<int>,
)
    requires
        queue.inner is Packed,
        can_begin_at(queue, head),
        is_path(true, queue.queue_size as int, mem, from, Region::Descriptors, head, path),
        all_linked_in_ring(mem, from, path),
        path.len() < limit(queue.queue_size as int),
    ensures
        ({
            let start = queue.leave_chain::<E>(head as u16, payload);
            &&& searched_from(queue, start, mem, from, path.len()) == (
                queue,
                work::counting::<E>(
                    queue,
                    head as u16,
                    slots(mem, from, Region::Descriptors, path),
                    payload,
                ),
            )
            &&& search_asks_from(queue, start, mem, from, path.len()) == reads(
                Region::Descriptors,
                path,
            )
        }),
    decreases path.len(),
{
    let start = queue.leave_chain::<E>(head as u16, payload);
    let size = queue.queue_size as int;
    if path.len() == 0 {
        search::lemma_search_once::<E>(queue, start, mem, from, 0);
        steps::lemma_count_begins::<E>(queue, head as u16, payload);
        assert(slots(mem, from, Region::Descriptors, path) =~= Seq::empty());
        assert(reads(Region::Descriptors, path) =~= Seq::empty());
    } else {
        let before = path.drop_last();
        let table = mem(from + before.len(), Region::Descriptors);
        lemma_drop_last_is_path(true, size, mem, from, Region::Descriptors, head, path);
        lemma_drop_last_linked_in_ring(mem, from, path);
        lemma_counts_path::<E>(queue, head, payload, mem, from, before);
        lemma_next_on_path(queue, head, mem, from, before);
        let entries = slots(mem, from, Region::Descriptors, before);
        let entry = table.subrange(16 * path.last(), 16 * path.last() + 16);
        lemma_slot(queue, table, path.last());
        lemma_reads(Region::Descriptors, path);
        steps::lemma_count_link::<E>(queue, head as u16, payload, entries, entry);
        steps::lemma_search_next::<E>(
            queue,
            start,
            mem,
            from,
            before.len(),
            work::counting(queue, head as u16, entries, payload),
            steps::next_request(queue, head as u16, entries),
            entry,
            (queue, work::counting(queue, head as u16, entries.push(entry), payload)),
        );
    }
}

/// A packed queue that has moved on by `count` descriptors from `head`: around
/// the ring, and into the other lap where the position is before the last one.
pub open spec fn moved_on(queue: QueueCoreGetWork, head: int, count: int) -> QueueCoreGetWork {
    let packed = queue.inner->Packed_0;
    let next = (head + count) % packed.queue_size as int;
    QueueCoreGetWork {
        queue_size: queue.queue_size,
        features: queue.features,
        inner: QueueGetWorkInner::Packed(
            PackedQueueGetWork {
                queue_size: packed.queue_size,
                next_avail_index: next as u16,
                _use_event_index: packed._use_event_index,
                wrapped_bit: if next < packed.next_avail_index {
                    !packed.wrapped_bit
                } else {
                    packed.wrapped_bit
                },
            },
        ),
    }
}

/// On a packed queue the descriptors of the ring from the first one of the work
/// on are counted, up to the first one that is not linked to another, whether or
/// not they stand for indirect tables. The work is handed out with all its
/// buffers, under its position in the ring, with the identifier of the last of
/// those descriptors, in the two bytes before its flags, and with their number,
/// by which the queue moves on.
pub proof fn law_packed_hands_out<E>(
    queue: QueueCoreGetWork,
    head: int,
    payload: Seq<VirtioQueuePayload>,
    mem: spec_fn(int, Region) -> Seq<u8>,
    from: int,
    path: Seq<int>,
)
    requires
        queue.inner is Packed,
        can_begin_at(queue, head),
        path.len() > 0,
        is_path(true, queue.queue_size as int, mem, from, Region::Descriptors, head, path),
        all_linked_in_ring(mem, from, path.drop_last()),
        !linked_at(true, mem(from + path.len() - 1, Region::Descriptors), path.last()),
        path.len() <= limit(queue.queue_size as int),
    ensures
        ({
            let start = queue.leave_chain::<E>(head as u16, payload);
            let last = mem(from + path.len() - 1, Region::Descriptors);
            &&& searched_from(queue, start, mem, from, path.len()) == (
                moved_on(queue, head, path.len() as int),
                Step::<NextWorkView, Option<QueueWorkView>, E>::Done(
                    Ok(
                        Some(
                            QueueWorkView {
                                context: QueueCompletionContext::Packed(
                                    PackedQueueCompletionContext {
                                        descriptor_index: head as u16,
                                        buffer_id: word16(last, 16 * path.last() + 12) as u16,
                                        descriptor_count: path.len() as u16,
                                    },
                                ),
                                payload,
                            },
                        ),
                    ),
                ),
            )
            &&& search_asks_from(queue, start, mem, from, path.len()) == reads(
                Region::Descriptors,
                path,
            )
        }),
{
    let start = queue.leave_chain::<E>(head as u16, payload);
    let size = queue.queue_size as int;
    let before = path.drop_last();
    let table = mem(from + before.len(), Region::Descriptors);
    lemma_drop_last_is_path(true, size, mem, from, Region::Descriptors, head, path);
    lemma_counts_path::<E>(queue, head, payload, mem, from, before);
    lemma_next_on_path(queue, head, mem, from, before);
    let entries = slots(mem, from, Region::Descriptors, before);
    let entry = table.subrange(16 * path.last(), 16 * path.last() + 16);
    lemma_slot(queue, table, path.last());
    lemma_reads(Region::Descriptors, path);
    steps::lemma_count_last::<E>(queue, head as u16, payload, entries, entry);
    steps::lemma_search_next::<E>(
        queue,
        start,
        mem,
        from,
        before.len(),
        work::counting(queue, head as u16, entries, payload),
        steps::next_request(queue, head as u16, entries),
        entry,
        (
            work::with_consumed(queue, head as u16, path.len() as u16),
            Step::Done(
                Ok(Some(work::packed_work(head as u16, entries.push(entry), payload))),
            ),
        ),
    );
    lemma_mod_bound(head + path.len(), size);
    assert(entries.push(entry).last() == entry);
}

/// A ring whose descriptors are linked on and on makes the chain too long, and
/// the queue stays as it was.
pub proof fn law_gives_up_in_ring<E>(
    queue: QueueCoreGetWork,
    head: int,
    payload: Seq<VirtioQueuePayload>,
    mem: spec_fn(int, Region) -> Seq<u8>,
    from: int,
    path: Seq<int>,
)
    requires
        queue.inner is Packed,
        can_begin_at(queue, head),
        is_path(true, queue.queue_size as int, mem, from, Region::Descriptors, head, path),
        all_linked_in_ring(mem, from, path),
        path.len() == limit(queue.queue_size as int),
    ensures
        searched_from(
            queue,
            queue.leave_chain::<E>(head as u16, payload),
            mem,
            from,
            path.len(),
        ) == (
            queue,
            Step::<NextWorkView, Option<QueueWorkView>, E>::Done(Err(QueueError::TooLong)),
        ),
{
    let start = queue.leave_chain::<E>(head as u16, payload);
    let size = queue.queue_size as int;
    let before = path.drop_last();
    let table = mem(from + before.len(), Region::Descriptors);
    lemma_drop_last_is_path(true, size, mem, from, Region::Descriptors, head, path);
    lemma_drop_last_linked_in_ring(mem, from, path);
    lemma_counts_path::<E>(queue, head, payload, mem, from, before);
    lemma_next_on_path(queue, head, mem, from, before);
    let entries = slots(mem, from, Region::Descriptors, before);
    let entry = table.subrange(16 * path.last(), 16 * path.last() + 16);
    lemma_slot(queue, table, path.last());
    lemma_reads(Region::Descriptors, path);
    steps::lemma_count_too_long::<E>(queue, head as u16, payload, entries, entry);
    steps::lemma_search_next::<E>(
        queue,
        start,
        mem,
        from,
        before.len(),
        work::counting(queue, head as u16, entries, payload),
        steps::next_request(queue, head as u16, entries),
        entry,
        (queue, Step::Done(Err(QueueError::TooLong))),
    );
}

/// A split queue hands out the chain that the available ring names next: under
/// the index that the ring holds at the next position, and with the buffers that
/// the descriptors of the chain hold.
pub proof fn law_split_queue_hands_out<E>(
    queue: QueueCoreGetWork,
    split: SplitQueueGetWork,
    mem: spec_fn(int, Region) -> Seq<u8>,
    path: Seq<int>,
)
    requires
        queue.wf(),
        queue.inner == QueueGetWorkInner::Split(split),
        mem(0, Region::Available).len() >= 4,
        mem(3, Region::Available).len() >= 4 + 2 * queue.queue_size,
        word16(mem(0, Region::Available), 2) != split.last_avail_index,
        is_whole_path(
            queue,
            word16(mem(3, Region::Available), 4 + 2 * search::position(split)),
            mem,
            4,
            path,
        ),
        path.len() <= limit(queue.queue_size as int),
    ensures
        search::searched::<E>(queue, mem, 4 + path.len()) == (
            search::one_more_taken(queue, split),
            Step::<NextWorkView, Option<QueueWorkView>, E>::Done(
                Ok(
                    Some(
                        QueueWorkView {
                            context: QueueCompletionContext::Split(
                                SplitQueueCompletionContext {
                                    descriptor_index: word16(
                                        mem(3, Region::Available),
                                        4 + 2 * search::position(split),
                                    ) as u16,
                                },
                            ),
                            payload: buffers_on(false, mem, 4, Region::Descriptors, path),
                        },
                    ),
                ),
            ),
        ),
{
    let taken = search::one_more_taken(queue, split);
    let head = word16(mem(3, Region::Available), 4 + 2 * search::position(split));
    search::law_split_finds_work::<E>(queue, split, mem);
    search::lemma_search_append::<E>(
        queue,
        queue.next_work_start::<E>(),
        mem,
        0,
        4,
        path.len(),
    );
    let before = path.drop_last();
    assert forall|k: int| #![trigger before[k]] 0 <= k < before.len() implies linked_at(
        false,
        mem(4 + k, Region::Descriptors),
        before[k],
    ) && !table_at(taken, mem(4 + k, Region::Descriptors), before[k]) by {
        assert(!table_at(queue, mem(4 + k, Region::Descriptors), before[k]));
    }
    assert(is_whole_path(taken, head, mem, 4, path));
    law_reads_buffers::<E>(taken, head, mem, 4, path);
    law_split_hands_out::<E>(
        taken,
        head as u16,
        buffers_on(false, mem, 4, Region::Descriptors, path),
    );
}

/// A packed queue hands out the chain that has been published at its position,
/// whatever further flags its descriptors have: with the buffers that they hold,
/// in order.
pub proof fn law_packed_queue_hands_out<E>(
    queue: QueueCoreGetWork,
    mem: spec_fn(int, Region) -> Seq<u8>,
    path: Seq<int>,
    ring: Seq<int>,
)
    requires
        queue.wf(),
        queue.inner is Packed,
        mem(2, Region::PackedRing).len() >= 16 * queue.queue_size,
        published(
            mem(2, Region::PackedRing),
            queue.inner->Packed_0.next_avail_index as int,
            queue.inner->Packed_0.wrapped_bit,
        ),
        is_whole_path(queue, queue.inner->Packed_0.next_avail_index as int, mem, 3, path),
        path.len() <= limit(queue.queue_size as int),
        ring.len() > 0,
        is_path(
            true,
            queue.queue_size as int,
            mem,
            (3 + path.len()) as int,
            Region::Descriptors,
            queue.inner->Packed_0.next_avail_index as int,
            ring,
        ),
        all_linked_in_ring(mem, (3 + path.len()) as int, ring.drop_last()),
        !linked_at(true, mem(3 + path.len() + ring.len() - 1, Region::Descriptors), ring.last()),
        ring.len() <= limit(queue.queue_size as int),
    ensures
        ({
            let head = queue.inner->Packed_0.next_avail_index;
            let last = mem(3 + path.len() + ring.len() - 1, Region::Descriptors);
            search::searched::<E>(queue, mem, 3 + path.len() + ring.len()) == (
                moved_on(queue, head as int, ring.len() as int),
                Step::<NextWorkView, Option<QueueWorkView>, E>::Done(
                    Ok(
                        Some(
                            QueueWorkView {
                                context: QueueCompletionContext::Packed(
                                    PackedQueueCompletionContext {
                                        descriptor_index: head,
                                        buffer_id: word16(last, 16 * ring.last() + 12) as u16,
                                        descriptor_count: ring.len() as u16,
                                    },
                                ),
                                payload: buffers_on(true, mem, 3, Region::Descriptors, path),
                            },
                        ),
                    ),
                ),
            )
        }),
{
    let head = queue.inner->Packed_0.next_avail_index as int;
    let start = queue.next_work_start::<E>();
    search::law_packed_finds_work::<E>(queue, mem);
    search::lemma_search_append::<E>(queue, start, mem, 0, 3, path.len());
    law_reads_buffers::<E>(queue, head, mem, 3, path);
    search::lemma_search_append::<E>(queue, start, mem, 0, 3 + path.len(), ring.len());
    law_packed_hands_out::<E>(
        queue,
        head,
        buffers_on(true, mem, 3, Region::Descriptors, path),
        mem,
        (3 + path.len()) as int,
        ring,
    );
}

/// A packed queue that moves on from its position by fewer descriptors than the
/// ring has changes its lap exactly where it comes to the end of the ring.
pub proof fn law_changes_lap(queue: QueueCoreGetWork, count: int)
    requires
        queue.wf(),
        queue.inner is Packed,
        0 <= count < queue.queue_size,
    ensures
        ({
            let head = queue.inner->Packed_0.next_avail_index as int;
            let after = moved_on(queue, head, count).inner->Packed_0;
            let size = queue.queue_size as int;
            &&& after.next_avail_index == (if head + count < size {
                head + count
            } else {
                head + count - size
            })
            &&& after.wrapped_bit == (queue.inner->Packed_0.wrapped_bit == (head + count < size))
        }),
{
    let head = queue.inner->Packed_0.next_avail_index as int;
    let size = queue.queue_size as int;
    if head + count < size {
        lemma_small_mod((head + count) as nat, size as nat);
    } else {
        vstd::arithmetic::div_mod::lemma_fundamental_div_mod_converse(
            head + count,
            size,
            1,
            head + count - size,
        );
    }
}

} // verus!
