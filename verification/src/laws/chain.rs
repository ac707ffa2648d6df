//! Laws on the descriptor chains that a queue follows.

use crate::descriptor;
use crate::descriptor::{
    ChainAt, DescriptorChain, DescriptorReader, QueueDescriptor, VirtioQueuePayload,
};
use crate::get_work::{NextWorkView, QueueCoreGetWork};
use crate::layout::{DescriptorFlags, PackedDescriptor, SplitDescriptor, DESCRIPTOR_SIZE};
use crate::memory;
use crate::memory::{QueueError, Region, Request, Step};
use crate::queue::QueueWorkView;
use vstd::prelude::*;

verus! {

/// The flags of a descriptor, as its bytes hold them.
pub open spec fn flags_of(queue: QueueCoreGetWork, entry: Seq<u8>) -> DescriptorFlags {
    if queue.inner is Packed {
        PackedDescriptor::of_bytes(entry).flags
    } else {
        SplitDescriptor::of_bytes(entry).flags
    }
}

/// The buffer of a descriptor, as its bytes hold it.
pub open spec fn buffer_of(queue: QueueCoreGetWork, entry: Seq<u8>) -> VirtioQueuePayload {
    descriptor::payload_of(descriptor::descriptor_of(queue.inner is Packed, entry, 0, None))
}

/// The buffers of descriptors, as their bytes hold them.
pub open spec fn buffers_of(queue: QueueCoreGetWork, entries: Seq<Seq<u8>>) -> Seq<
    VirtioQueuePayload,
> {
    Seq::new(entries.len(), |i: int| buffer_of(queue, entries[i]))
}

/// The index of the descriptor after the given ones of a chain in the queue
/// that begins at `head`: where the last of them points, on a split queue, and
/// the next one around the ring on a packed queue.
pub open spec fn index_after(queue: QueueCoreGetWork, head: u16, entries: Seq<Seq<u8>>) -> u16 {
    if entries.len() == 0 {
        head
    } else if queue.inner is Packed {
        ((head + entries.len()) % queue.queue_size as int) as u16
    } else {
        (SplitDescriptor::of_bytes(entries.last()).next as int % queue.queue_size as int) as u16
    }
}

/// Whether a descriptor of the queue stands for an indirect table.
pub open spec fn stands_for_table(queue: QueueCoreGetWork, entry: Seq<u8>) -> bool {
    queue.features.bank0().ring_indirect_desc() && flags_of(queue, entry).indirect()
}

/// Whether the descriptors are linked to one another and to a further one, and
/// none of them stands for an indirect table.
pub open spec fn linked(queue: QueueCoreGetWork, entries: Seq<Seq<u8>>) -> bool {
    forall|i: int|
        0 <= i < entries.len() ==> flags_of(queue, #[trigger] entries[i]).next()
            && !stands_for_table(queue, entries[i])
}

/// The search after it has read the given descriptors of the chain that begins
/// at `head`, and goes on.
pub open spec fn reading<E>(queue: QueueCoreGetWork, head: u16, entries: Seq<Seq<u8>>) -> Step<
    NextWorkView,
    Option<QueueWorkView>,
    E,
> {
    queue.wait(
        NextWorkView::Payload {
            head,
            reader: DescriptorReader { chain: walk_after(queue, head, entries) },
            at: ChainAt::Entry,
            payload: buffers_of(queue, entries),
        },
    )
}

/// A head that a packed queue can find lies in the ring.
pub open spec fn can_begin(queue: QueueCoreGetWork, head: u16) -> bool {
    queue.wf() && (queue.inner is Packed ==> head < queue.queue_size)
}

proof fn lemma_next_around(head: int, k: int, size: int)
    requires
        0 < size,
        0 <= head,
        0 <= k,
    ensures
        ((head + k) % size + 1) % size == (head + k + 1) % size,
{
    vstd::arithmetic::div_mod::lemma_add_mod_noop_right(1, head + k, size);
}

/// The walk after it has read the given descriptors of the chain in the queue
/// that begins at `head`, and goes on.
pub open spec fn walk_after(
    queue: QueueCoreGetWork,
    head: u16,
    entries: Seq<Seq<u8>>,
) -> DescriptorChain {
    DescriptorChain {
        num_read: entries.len() as u16,
        descriptor_index: Some(index_after(queue, head, entries)),
        ..queue.spec_reader(head).chain
    }
}

/// What the bytes at the current index of a walk in the queue decode to.
pub proof fn lemma_decodes(
    queue: QueueCoreGetWork,
    head: u16,
    before: Seq<Seq<u8>>,
    entry: Seq<u8>,
) -> (found: QueueDescriptor)
    requires
        can_begin(queue, head),
    ensures
        found == descriptor::descriptor_of(
            queue.inner is Packed,
            entry,
            index_after(queue, head, before),
            None,
        ),
        found.flags == flags_of(queue, entry),
        descriptor::payload_of(found) == buffer_of(queue, entry),
        found.next is Some <==> flags_of(queue, entry).next(),
        found.next matches Some(next) ==> (next as int % queue.queue_size as int) as u16
            == index_after(queue, head, before.push(entry)),
        queue.inner is Packed ==> found.buffer_id == Some(
            PackedDescriptor::of_bytes(entry).buffer_id,
        ),
{
    let size = queue.queue_size as int;
    let index = index_after(queue, head, before);
    let found = descriptor::descriptor_of(queue.inner is Packed, entry, index, None);
    if queue.inner is Packed {
        lemma_next_around(head as int, before.len() as int, size);
        vstd::arithmetic::div_mod::lemma_mod_bound(head + before.len(), size);
        if before.len() == 0 {
            vstd::arithmetic::div_mod::lemma_small_mod(head as nat, size as nat);
        }
        assert(index == (head + before.len()) % size);
        assert(index < size);
        assert(descriptor::following(index) == index + 1);
        assert(before.push(entry).len() == before.len() + 1);
    } else {
        assert(before.push(entry).last() == entry);
    }
    found
}

/// A step along a link.
pub proof fn lemma_link<E>(
    queue: QueueCoreGetWork,
    head: u16,
    before: Seq<Seq<u8>>,
    entry: Seq<u8>,
)
    requires
        can_begin(queue, head),
        flags_of(queue, entry).next(),
        !stands_for_table(queue, entry),
        before.len() + 1 < descriptor::chain_limit(queue.queue_size),
    ensures
        reading::<E>(queue, head, before) matches Step::Wait { at, request }
            && queue.next_work_resume(at, Ok::<Seq<u8>, E>(entry)) == (
            queue,
            reading::<E>(queue, head, before.push(entry)),
        ),
{
    let walk = walk_after(queue, head, before);
    let found = lemma_decodes(queue, head, before, entry);
    assert(walk.raw(ChainAt::Entry, Ok::<Seq<u8>, E>(entry)) == Some(found));
    assert(walk.past(found) == walk_after(queue, head, before.push(entry)));
    assert(walk.next_resume(ChainAt::Entry, Ok::<Seq<u8>, E>(entry)) == (
        walk.past(found),
        Step::<ChainAt, Option<QueueDescriptor>, E>::Done(Ok(Some(found))),
    ));
    assert(buffers_of(queue, before.push(entry)) =~= buffers_of(queue, before).push(
        buffer_of(queue, entry),
    ));
}

/// A chain is followed along its links: after each descriptor that is linked to
/// another, the search asks for that other one.
pub proof fn law_follows_links<E>(queue: QueueCoreGetWork, head: u16, entries: Seq<Seq<u8>>)
    requires
        can_begin(queue, head),
        linked(queue, entries),
        entries.len() < descriptor::chain_limit(queue.queue_size),
    ensures
        queue.next_work_run_from(queue.enter_chain::<E>(head), memory::oks(entries)) == (
            queue,
            reading::<E>(queue, head, entries),
        ),
        reading::<E>(queue, head, entries)->request == descriptor::entry_request(
            Region::Descriptors,
            index_after(queue, head, entries),
        ),
    decreases entries.len(),
{
    let start = queue.enter_chain::<E>(head);
    let resume = |queue: QueueCoreGetWork, at: NextWorkView, reply: Result<Seq<u8>, E>|
        queue.next_work_resume(at, reply);
    if entries.len() == 0 {
        assert(buffers_of(queue, entries) =~= Seq::empty());
    } else {
        let before = entries.drop_last();
        let last = entries.last();
        law_follows_links::<E>(queue, head, before);
        memory::lemma_run_push(queue, start, resume, memory::oks(before), Ok(last));
        assert(memory::oks::<E>(entries) =~= memory::oks(before).push(Ok(last)));
        assert(entries =~= before.push(last));
        assert(entries[entries.len() - 1] == last);
        lemma_link::<E>(queue, head, before, last);
    }
}

/// Whether the descriptors are a whole chain: each is linked to the next, the
/// last one to none, and none of them stands for an indirect table.
pub open spec fn whole_chain(queue: QueueCoreGetWork, entries: Seq<Seq<u8>>) -> bool {
    &&& entries.len() > 0
    &&& linked(queue, entries.drop_last())
    &&& !flags_of(queue, entries.last()).next()
    &&& !stands_for_table(queue, entries.last())
}

/// A chain that is not too long is read to its end: its buffers are those of
/// its descriptors, in order.
pub proof fn law_reads_whole_chain<E>(queue: QueueCoreGetWork, head: u16, entries: Seq<Seq<u8>>)
    requires
        can_begin(queue, head),
        whole_chain(queue, entries),
        entries.len() <= descriptor::chain_limit(queue.queue_size),
    ensures
        queue.next_work_run_from(queue.enter_chain::<E>(head), memory::oks(entries)) == (
            queue,
            queue.leave_chain::<E>(head, buffers_of(queue, entries)),
        ),
{
    let start = queue.enter_chain::<E>(head);
    let resume = |queue: QueueCoreGetWork, at: NextWorkView, reply: Result<Seq<u8>, E>|
        queue.next_work_resume(at, reply);
    let before = entries.drop_last();
    let last = entries.last();
    law_follows_links::<E>(queue, head, before);
    memory::lemma_run_push(queue, start, resume, memory::oks(before), Ok(last));
    assert(memory::oks::<E>(entries) =~= memory::oks(before).push(Ok(last)));
    let walk = walk_after(queue, head, before);
    let found = lemma_decodes(queue, head, before, last);
    assert(walk.raw(ChainAt::Entry, Ok::<Seq<u8>, E>(last)) == Some(found));
    assert(walk.next_resume(ChainAt::Entry, Ok::<Seq<u8>, E>(last)) == (
        walk.past(found),
        Step::<ChainAt, Option<QueueDescriptor>, E>::Done(Ok(Some(found))),
    ));
    assert(buffers_of(queue, entries) =~= buffers_of(queue, before).push(buffer_of(queue, last)));
}

/// A chain in the queue is given up as too long once it has had as many
/// descriptors as it may have, and goes on. So no chain in the queue, whether
/// it is long or has a cycle, is followed any further.
pub proof fn law_gives_up_long_chain<E>(queue: QueueCoreGetWork, head: u16, entries: Seq<Seq<u8>>)
    requires
        can_begin(queue, head),
        linked(queue, entries),
        entries.len() == descriptor::chain_limit(queue.queue_size),
    ensures
        queue.next_work_run_from(queue.enter_chain::<E>(head), memory::oks(entries)) == (
            queue,
            Step::<NextWorkView, Option<QueueWorkView>, E>::Done(Err(QueueError::TooLong)),
        ),
{
    let start = queue.enter_chain::<E>(head);
    let resume = |queue: QueueCoreGetWork, at: NextWorkView, reply: Result<Seq<u8>, E>|
        queue.next_work_resume(at, reply);
    let before = entries.drop_last();
    let last = entries.last();
    assert(entries[entries.len() - 1] == last);
    law_follows_links::<E>(queue, head, before);
    memory::lemma_run_push(queue, start, resume, memory::oks(before), Ok(last));
    assert(memory::oks::<E>(entries) =~= memory::oks(before).push(Ok(last)));
    let walk = walk_after(queue, head, before);
    let found = lemma_decodes(queue, head, before, last);
    assert(walk.raw(ChainAt::Entry, Ok::<Seq<u8>, E>(last)) == Some(found));
    assert(walk.next_resume(ChainAt::Entry, Ok::<Seq<u8>, E>(last)) == (
        walk.past(found),
        Step::<ChainAt, Option<QueueDescriptor>, E>::Done(Err(QueueError::TooLong)),
    ));
}

/// A read that fails while the buffers of a chain are read ends the search with
/// the error of guest memory, and the queue stays as it was when the search
/// entered the chain.
pub proof fn law_chain_access_fails<E>(
    queue: QueueCoreGetWork,
    head: u16,
    reader: DescriptorReader,
    at: ChainAt,
    payload: Seq<VirtioQueuePayload>,
    e: E,
)
    ensures
        queue.next_work_resume(
            NextWorkView::Payload { head, reader, at, payload },
            Err::<Seq<u8>, E>(e),
        ) == (
            queue,
            Step::<NextWorkView, Option<QueueWorkView>, E>::Done(Err(QueueError::Memory(e))),
        ),
{
}

/// The number of descriptors of the indirect table that a descriptor stands
/// for.
pub open spec fn table_size_of(queue: QueueCoreGetWork, entry: Seq<u8>) -> u16 {
    descriptor::table_size(buffer_of(queue, entry).length)
}

/// The index, in an indirect table of `size` descriptors, of the descriptor
/// after the given ones.
pub open spec fn table_index_after(
    queue: QueueCoreGetWork,
    size: u16,
    entries: Seq<Seq<u8>>,
) -> u16 {
    if entries.len() == 0 {
        0
    } else if queue.inner is Packed {
        (entries.len() as int % size as int) as u16
    } else {
        (SplitDescriptor::of_bytes(entries.last()).next as int % size as int) as u16
    }
}

/// How many descriptors a chain may have that enters an indirect table of `size`
/// descriptors after `read` descriptors of the queue: as many as a chain in the
/// table, or, where it has had as many already, as any chain.
pub open spec fn table_limit(size: u16, read: nat) -> u16 {
    if read < descriptor::chain_limit(size) {
        descriptor::chain_limit(size)
    } else {
        descriptor::MAX_DESC_CHAIN
    }
}

/// Whether the descriptor at position `i` of a chain in an indirect table is
/// linked to another: by its flag, or, on a packed queue, as long as the table
/// has descriptors.
pub open spec fn table_link(
    queue: QueueCoreGetWork,
    size: u16,
    entries: Seq<Seq<u8>>,
    i: int,
) -> bool {
    flags_of(queue, entries[i]).next() || (queue.inner is Packed && i % (size as int) + 1 < size)
}

/// Whether the descriptors of an indirect table are linked to one another and
/// to a further one, and none of them has the indirect flag set.
pub open spec fn table_linked(
    queue: QueueCoreGetWork,
    size: u16,
    entries: Seq<Seq<u8>>,
) -> bool {
    forall|i: int|
        #![trigger entries[i]]
        0 <= i < entries.len() ==> table_link(queue, size, entries, i) && !flags_of(
            queue,
            entries[i],
        ).indirect()
}

/// The walk in the indirect table that `entry` stands for, after the
/// descriptors `direct` of the queue and `table` of the table.
pub open spec fn table_walk_after(
    queue: QueueCoreGetWork,
    head: u16,
    direct: Seq<Seq<u8>>,
    entry: Seq<u8>,
    table: Seq<Seq<u8>>,
) -> DescriptorChain {
    DescriptorChain {
        num_read: (direct.len() + table.len()) as u16,
        descriptor_index: Some(
            table_index_after(queue, table_size_of(queue, entry), table),
        ),
        ..walk_after(queue, head, direct).entered(buffer_of(queue, entry).length)
    }
}

/// The search that reads the table, at that point.
pub open spec fn reading_table<E>(
    queue: QueueCoreGetWork,
    head: u16,
    direct: Seq<Seq<u8>>,
    entry: Seq<u8>,
    table: Seq<Seq<u8>>,
) -> Step<NextWorkView, Option<QueueWorkView>, E> {
    queue.wait(
        NextWorkView::Payload {
            head,
            reader: DescriptorReader {
                chain: table_walk_after(queue, head, direct, entry, table),
            },
            at: if table.len() == 0 {
                ChainAt::FirstOfTable
            } else {
                ChainAt::Entry
            },
            payload: buffers_of(queue, direct) + buffers_of(queue, table),
        },
    )
}

/// A descriptor that stands for an indirect table is not handed out as a
/// buffer: the search takes the table, and asks for its first descriptor.
pub proof fn law_enters_table<E>(
    queue: QueueCoreGetWork,
    head: u16,
    direct: Seq<Seq<u8>>,
    entry: Seq<u8>,
    granted: Seq<u8>,
)
    requires
        can_begin(queue, head),
        linked(queue, direct),
        direct.len() < descriptor::chain_limit(queue.queue_size),
        stands_for_table(queue, entry),
    ensures
        ({
            let start = queue.enter_chain::<E>(head);
            let at_entry = memory::oks::<E>(direct.push(entry));
            &&& queue.next_work_run_from(start, at_entry) matches (
                q,
                Step::Wait { at, request },
            ) && q == queue && request == (Request::Subrange {
                region: Region::Indirect,
                addr: buffer_of(queue, entry).address,
                len: buffer_of(queue, entry).length as u64,
            })
            &&& queue.next_work_run_from(start, at_entry.push(Ok(granted))) == (
                queue,
                reading_table::<E>(queue, head, direct, entry, Seq::empty()),
            )
            &&& reading_table::<E>(queue, head, direct, entry, Seq::empty())->request
                == descriptor::entry_request(Region::Indirect, 0)
        }),
{
    let start = queue.enter_chain::<E>(head);
    let resume = |queue: QueueCoreGetWork, at: NextWorkView, reply: Result<Seq<u8>, E>|
        queue.next_work_resume(at, reply);
    law_follows_links::<E>(queue, head, direct);
    memory::lemma_run_push(queue, start, resume, memory::oks(direct), Ok(entry));
    let at_entry = memory::oks::<E>(direct.push(entry));
    assert(at_entry =~= memory::oks(direct).push(Ok(entry)));
    let walk = walk_after(queue, head, direct);
    let found = lemma_decodes(queue, head, direct, entry);
    let length = buffer_of(queue, entry).length;
    let table = ChainAt::Table { address: found.address, length };
    assert(found.address == buffer_of(queue, entry).address && found.length == length);
    assert(walk.raw(ChainAt::Entry, Ok::<Seq<u8>, E>(entry)) == Some(found));
    assert(walk.next_resume(ChainAt::Entry, Ok::<Seq<u8>, E>(entry)) == (
        walk,
        Step::<ChainAt, Option<QueueDescriptor>, E>::Wait {
            at: table,
            request: walk.request_at(table),
        },
    ));
    memory::lemma_run_push(queue, start, resume, at_entry, Ok(granted));
    let entered = walk.entered(length);
    assert(entered == table_walk_after(queue, head, direct, entry, Seq::empty()));
    assert(walk.next_resume(table, Ok::<Seq<u8>, E>(granted)) == (
        entered,
        Step::<ChainAt, Option<QueueDescriptor>, E>::Wait {
            at: ChainAt::FirstOfTable,
            request: entered.request_at(ChainAt::FirstOfTable),
        },
    ));
    assert(buffers_of(queue, direct) + buffers_of(queue, Seq::empty()) =~= buffers_of(
        queue,
        direct,
    ));
}

/// What the bytes at the current index of a walk in an indirect table decode to.
pub proof fn lemma_table_decodes(
    queue: QueueCoreGetWork,
    size: u16,
    before: Seq<Seq<u8>>,
    entry: Seq<u8>,
) -> (found: QueueDescriptor)
    requires
        size > 0,
    ensures
        found == descriptor::descriptor_of(
            queue.inner is Packed,
            entry,
            table_index_after(queue, size, before),
            Some(size),
        ),
        found.flags == flags_of(queue, entry),
        descriptor::payload_of(found) == buffer_of(queue, entry),
        found.next is Some <==> table_link(queue, size, before.push(entry), before.len() as int),
        found.next matches Some(next) ==> (next as int % size as int) as u16 == table_index_after(
            queue,
            size,
            before.push(entry),
        ),
{
    let index = table_index_after(queue, size, before);
    let found = descriptor::descriptor_of(queue.inner is Packed, entry, index, Some(size));
    assert(before.push(entry)[before.len() as int] == entry);
    if queue.inner is Packed {
        lemma_next_around(0, before.len() as int, size as int);
        vstd::arithmetic::div_mod::lemma_mod_bound(before.len() as int, size as int);
        if before.len() == 0 {
            vstd::arithmetic::div_mod::lemma_small_mod(0, size as nat);
        }
        assert(index == before.len() as int % size as int);
        assert(descriptor::following(index) == index + 1);
        assert(before.push(entry).len() == before.len() + 1);
    } else {
        assert(before.push(entry).last() == entry);
    }
    found
}

/// A step along a link in an indirect table.
pub proof fn lemma_table_link<E>(
    queue: QueueCoreGetWork,
    head: u16,
    direct: Seq<Seq<u8>>,
    entry: Seq<u8>,
    before: Seq<Seq<u8>>,
    last: Seq<u8>,
)
    requires
        table_size_of(queue, entry) > 0,
        table_link(queue, table_size_of(queue, entry), before.push(last), before.len() as int),
        !flags_of(queue, last).indirect(),
        direct.len() + before.len() + 1 < table_limit(table_size_of(queue, entry), direct.len()),
    ensures
        reading_table::<E>(queue, head, direct, entry, before) matches Step::Wait { at, request }
            && queue.next_work_resume(at, Ok::<Seq<u8>, E>(last)) == (
            queue,
            reading_table::<E>(queue, head, direct, entry, before.push(last)),
        ),
{
    let size = table_size_of(queue, entry);
    let walk = table_walk_after(queue, head, direct, entry, before);
    let at = if before.len() == 0 {
        ChainAt::FirstOfTable
    } else {
        ChainAt::Entry
    };
    let found = lemma_table_decodes(queue, size, before, last);
    assert(walk.raw(at, Ok::<Seq<u8>, E>(last)) == Some(found));
    assert(walk.past(found) == table_walk_after(queue, head, direct, entry, before.push(last)));
    assert(walk.next_resume(at, Ok::<Seq<u8>, E>(last)) == (
        walk.past(found),
        Step::<ChainAt, Option<QueueDescriptor>, E>::Done(Ok(Some(found))),
    ));
    assert(buffers_of(queue, direct) + buffers_of(queue, before.push(last)) =~= (buffers_of(
        queue,
        direct,
    ) + buffers_of(queue, before)).push(buffer_of(queue, last)));
}

/// A chain in an indirect table is followed along its links.
pub proof fn law_follows_table_links<E>(
    queue: QueueCoreGetWork,
    head: u16,
    direct: Seq<Seq<u8>>,
    entry: Seq<u8>,
    table: Seq<Seq<u8>>,
)
    requires
        table_size_of(queue, entry) > 0,
        table_linked(queue, table_size_of(queue, entry), table),
        direct.len() + table.len() < table_limit(table_size_of(queue, entry), direct.len()),
    ensures
        queue.next_work_run_from(
            reading_table::<E>(queue, head, direct, entry, Seq::empty()),
            memory::oks(table),
        ) == (queue, reading_table::<E>(queue, head, direct, entry, table)),
        reading_table::<E>(queue, head, direct, entry, table)->request == descriptor::entry_request(
            Region::Indirect,
            table_index_after(queue, table_size_of(queue, entry), table),
        ),
    decreases table.len(),
{
    let start = reading_table::<E>(queue, head, direct, entry, Seq::empty());
    let resume = |queue: QueueCoreGetWork, at: NextWorkView, reply: Result<Seq<u8>, E>|
        queue.next_work_resume(at, reply);
    if table.len() == 0 {
        assert(table =~= Seq::empty());
    } else {
        let before = table.drop_last();
        let last = table.last();
        let size = table_size_of(queue, entry);
        assert(table =~= before.push(last));
        assert(table[table.len() - 1] == last);
        assert forall|i: int|
            #![trigger before[i]]
            0 <= i < before.len() implies table_link(queue, size, before, i) && !flags_of(
            queue,
            before[i],
        ).indirect() by {
            assert(before[i] == table[i]);
        }
        law_follows_table_links::<E>(queue, head, direct, entry, before);
        memory::lemma_run_push(queue, start, resume, memory::oks(before), Ok(last));
        assert(memory::oks::<E>(table) =~= memory::oks(before).push(Ok(last)));
        lemma_table_link::<E>(queue, head, direct, entry, before, last);
    }
}

/// Whether the descriptors are a whole chain in an indirect table of `size`
/// descriptors: each is linked to the next, the last one to none, and none of
/// them has the indirect flag set.
pub open spec fn whole_table_chain(
    queue: QueueCoreGetWork,
    size: u16,
    table: Seq<Seq<u8>>,
) -> bool {
    &&& table.len() > 0
    &&& table_linked(queue, size, table.drop_last())
    &&& !table_link(queue, size, table, table.len() - 1)
    &&& !flags_of(queue, table.last()).indirect()
}

/// A chain in an indirect table that is not too long is read to its end: its
/// buffers follow those of the descriptors before the table.
pub proof fn law_reads_whole_table<E>(
    queue: QueueCoreGetWork,
    head: u16,
    direct: Seq<Seq<u8>>,
    entry: Seq<u8>,
    table: Seq<Seq<u8>>,
)
    requires
        table_size_of(queue, entry) > 0,
        whole_table_chain(queue, table_size_of(queue, entry), table),
        direct.len() + table.len() <= table_limit(table_size_of(queue, entry), direct.len()),
    ensures
        queue.next_work_run_from(
            reading_table::<E>(queue, head, direct, entry, Seq::empty()),
            memory::oks(table),
        ) == (
            queue,
            queue.leave_chain::<E>(head, buffers_of(queue, direct) + buffers_of(queue, table)),
        ),
{
    let start = reading_table::<E>(queue, head, direct, entry, Seq::empty());
    let resume = |queue: QueueCoreGetWork, at: NextWorkView, reply: Result<Seq<u8>, E>|
        queue.next_work_resume(at, reply);
    let before = table.drop_last();
    let last = table.last();
    let size = table_size_of(queue, entry);
    assert(table =~= before.push(last));
    law_follows_table_links::<E>(queue, head, direct, entry, before);
    memory::lemma_run_push(queue, start, resume, memory::oks(before), Ok(last));
    assert(memory::oks::<E>(table) =~= memory::oks(before).push(Ok(last)));
    let walk = table_walk_after(queue, head, direct, entry, before);
    let at = if before.len() == 0 {
        ChainAt::FirstOfTable
    } else {
        ChainAt::Entry
    };
    let found = lemma_table_decodes(queue, size, before, last);
    assert(walk.raw(at, Ok::<Seq<u8>, E>(last)) == Some(found));
    assert(walk.next_resume(at, Ok::<Seq<u8>, E>(last)) == (
        walk.past(found),
        Step::<ChainAt, Option<QueueDescriptor>, E>::Done(Ok(Some(found))),
    ));
    assert(buffers_of(queue, direct) + buffers_of(queue, table) =~= (buffers_of(queue, direct)
        + buffers_of(queue, before)).push(buffer_of(queue, last)));
}

/// A chain that has entered an indirect table is given up as too long once it
/// has had as many descriptors as it may have, and goes on.
pub proof fn law_gives_up_long_table<E>(
    queue: QueueCoreGetWork,
    head: u16,
    direct: Seq<Seq<u8>>,
    entry: Seq<u8>,
    table: Seq<Seq<u8>>,
)
    requires
        table.len() > 0,
        table_size_of(queue, entry) > 0,
        table_linked(queue, table_size_of(queue, entry), table),
        direct.len() + table.len() == table_limit(table_size_of(queue, entry), direct.len()),
    ensures
        queue.next_work_run_from(
            reading_table::<E>(queue, head, direct, entry, Seq::empty()),
            memory::oks(table),
        ) == (
            queue,
            Step::<NextWorkView, Option<QueueWorkView>, E>::Done(Err(QueueError::TooLong)),
        ),
{
    let start = reading_table::<E>(queue, head, direct, entry, Seq::empty());
    let resume = |queue: QueueCoreGetWork, at: NextWorkView, reply: Result<Seq<u8>, E>|
        queue.next_work_resume(at, reply);
    let before = table.drop_last();
    let last = table.last();
    let size = table_size_of(queue, entry);
    assert(table =~= before.push(last));
    assert(table[table.len() - 1] == last);
    assert forall|i: int|
        #![trigger before[i]]
        0 <= i < before.len() implies table_link(queue, size, before, i) && !flags_of(
        queue,
        before[i],
    ).indirect() by {
        assert(before[i] == table[i]);
    }
    law_follows_table_links::<E>(queue, head, direct, entry, before);
    memory::lemma_run_push(queue, start, resume, memory::oks(before), Ok(last));
    assert(memory::oks::<E>(table) =~= memory::oks(before).push(Ok(last)));
    let walk = table_walk_after(queue, head, direct, entry, before);
    let at = if before.len() == 0 {
        ChainAt::FirstOfTable
    } else {
        ChainAt::Entry
    };
    let found = lemma_table_decodes(queue, size, before, last);
    assert(walk.raw(at, Ok::<Seq<u8>, E>(last)) == Some(found));
    assert(walk.next_resume(at, Ok::<Seq<u8>, E>(last)) == (
        walk.past(found),
        Step::<ChainAt, Option<QueueDescriptor>, E>::Done(Err(QueueError::TooLong)),
    ));
}

/// A descriptor of an indirect table that has the indirect flag set is refused,
/// be it the first one or a later one.
pub proof fn law_refuses_nested_table<E>(
    queue: QueueCoreGetWork,
    head: u16,
    direct: Seq<Seq<u8>>,
    entry: Seq<u8>,
    table: Seq<Seq<u8>>,
    nested: Seq<u8>,
)
    requires
        queue.features.bank0().ring_indirect_desc(),
        table_size_of(queue, entry) > 0,
        table_linked(queue, table_size_of(queue, entry), table),
        direct.len() + table.len() < table_limit(table_size_of(queue, entry), direct.len()),
        flags_of(queue, nested).indirect(),
    ensures
        queue.next_work_run_from(
            reading_table::<E>(queue, head, direct, entry, Seq::empty()),
            memory::oks(table.push(nested)),
        ) == (
            queue,
            Step::<NextWorkView, Option<QueueWorkView>, E>::Done(Err(QueueError::DoubleIndirect)),
        ),
{
    let start = reading_table::<E>(queue, head, direct, entry, Seq::empty());
    let resume = |queue: QueueCoreGetWork, at: NextWorkView, reply: Result<Seq<u8>, E>|
        queue.next_work_resume(at, reply);
    let size = table_size_of(queue, entry);
    law_follows_table_links::<E>(queue, head, direct, entry, table);
    memory::lemma_run_push(queue, start, resume, memory::oks(table), Ok(nested));
    assert(memory::oks::<E>(table.push(nested)) =~= memory::oks(table).push(Ok(nested)));
    let walk = table_walk_after(queue, head, direct, entry, table);
    let at = if table.len() == 0 {
        ChainAt::FirstOfTable
    } else {
        ChainAt::Entry
    };
    let found = lemma_table_decodes(queue, size, table, nested);
    assert(walk.raw(at, Ok::<Seq<u8>, E>(nested)) == Some(found));
    assert(walk.next_resume(at, Ok::<Seq<u8>, E>(nested)) == (
        walk,
        Step::<ChainAt, Option<QueueDescriptor>, E>::Done(Err(QueueError::DoubleIndirect)),
    ));
}

/// However the driver links its descriptors, the walk goes on inside the table
/// that it is in. (Only the index that the available ring of a split queue
/// names is taken as it is.)
pub proof fn law_links_stay_in_table(walk: DescriptorChain, found: QueueDescriptor)
    requires
        walk.queue_size > 0,
    ensures
        walk.past(found).descriptor_index matches Some(index) ==> {
            &&& index < walk.queue_size
            &&& memory::within(
                walk.past(found).request_at(ChainAt::Entry),
                walk.table(),
                (DESCRIPTOR_SIZE * walk.queue_size) as u64,
            )
        },
{
    if let Some(next) = found.next {
        vstd::arithmetic::div_mod::lemma_mod_bound(next as int, walk.queue_size as int);
    }
}

} // verus!
