//! Laws on the pieces of work that a queue hands out.

use crate::descriptor;
use crate::descriptor::{ChainAt, DescriptorChain, QueueDescriptor, VirtioQueuePayload};
use crate::get_work;
use crate::get_work::{NextWork, NextWorkView, QueueCoreGetWork, QueueGetWorkInner};
use crate::laws::chain;
use crate::layout::PackedDescriptor;
use crate::le;
use crate::memory;
use crate::memory::{QueueError, Request, Step};
use crate::packed;
use crate::packed::PackedQueueCompletionContext;
use crate::queue::{QueueCompletionContext, QueueWork, QueueWorkView};
use crate::split::SplitQueueCompletionContext;
use vstd::arithmetic::div_mod::lemma_mod_bound;
use vstd::prelude::*;

verus! {

/// A split queue after one more piece of work has been taken.
pub open spec fn with_taken(queue: QueueCoreGetWork) -> QueueCoreGetWork {
    QueueCoreGetWork { inner: QueueGetWorkInner::Split(queue.inner->Split_0.taken()), ..queue }
}

/// The position in the available ring that a split queue takes work from next.
pub open spec fn next_position(queue: QueueCoreGetWork) -> u16 {
    (queue.inner->Split_0.taken().last_avail_index as int % queue.queue_size as int) as u16
}

/// Where the driver's index says that there is work, a split queue takes it,
/// and follows the chain that the available ring names.
pub proof fn law_split_work_found<E>(
    queue: QueueCoreGetWork,
    index: Seq<u8>,
    done: Seq<Seq<u8>>,
    element: Seq<u8>,
)
    requires
        queue.wf(),
        queue.inner is Split,
        le::le_u16(index) != queue.inner->Split_0.last_avail_index,
    ensures
        ({
            let taken = with_taken(queue);
            let found = seq![index, done[0], done[1]];
            &&& queue.next_work_run(memory::oks::<E>(found)) == (
                taken,
                taken.wait::<E>(NextWorkView::Element { index: next_position(queue) }),
            )
            &&& queue.next_work_run(memory::oks::<E>(found.push(element))) == (
                taken,
                taken.enter_chain::<E>(le::le_u16(element)),
            )
        }),
{
    let replies = memory::oks::<E>(seq![index, done[0], done[1]].push(element));
    let resume = |queue: QueueCoreGetWork, at: NextWorkView, reply: Result<Seq<u8>, E>|
        queue.next_work_resume(at, reply);
    let first = queue.next_work_start::<E>();
    memory::lemma_run_take(queue, first, resume, replies, 0);
    memory::lemma_run_take(queue, first, resume, replies, 1);
    memory::lemma_run_take(queue, first, resume, replies, 2);
    memory::lemma_run_take(queue, first, resume, replies, 3);
    assert(replies.take(3) =~= memory::oks::<E>(seq![index, done[0], done[1]]));
}

/// Work that the driver adds while the search turns notifications on is found
/// as well.
pub proof fn law_split_work_found_after_rearming<E>(
    queue: QueueCoreGetWork,
    index: Seq<u8>,
    again: Seq<u8>,
    done: Seq<Seq<u8>>,
    element: Seq<u8>,
)
    requires
        queue.wf(),
        queue.inner is Split,
        le::le_u16(index) == queue.inner->Split_0.last_avail_index,
        le::le_u16(again) != queue.inner->Split_0.last_avail_index,
    ensures
        ({
            let taken = with_taken(queue);
            let found = seq![index, done[0], done[1], again, done[2], done[3]];
            &&& queue.next_work_run(memory::oks::<E>(found)) == (
                taken,
                taken.wait::<E>(NextWorkView::Element { index: next_position(queue) }),
            )
            &&& queue.next_work_run(memory::oks::<E>(found.push(element))) == (
                taken,
                taken.enter_chain::<E>(le::le_u16(element)),
            )
        }),
{
    let found = seq![index, done[0], done[1], again, done[2], done[3]];
    let replies = memory::oks::<E>(found.push(element));
    let resume = |queue: QueueCoreGetWork, at: NextWorkView, reply: Result<Seq<u8>, E>|
        queue.next_work_resume(at, reply);
    let first = queue.next_work_start::<E>();
    memory::lemma_run_take(queue, first, resume, replies, 0);
    memory::lemma_run_take(queue, first, resume, replies, 1);
    memory::lemma_run_take(queue, first, resume, replies, 2);
    memory::lemma_run_take(queue, first, resume, replies, 3);
    memory::lemma_run_take(queue, first, resume, replies, 4);
    memory::lemma_run_take(queue, first, resume, replies, 5);
    memory::lemma_run_take(queue, first, resume, replies, 6);
    assert(replies.take(6) =~= memory::oks::<E>(found));
}

/// Where there is no work on a split queue, none is handed out, and the queue
/// is as it was.
pub proof fn law_no_split_work<E>(
    queue: QueueCoreGetWork,
    index: Seq<u8>,
    again: Seq<u8>,
    done: Seq<Seq<u8>>,
)
    requires
        queue.inner is Split,
        le::le_u16(index) == queue.inner->Split_0.last_avail_index,
        le::le_u16(again) == queue.inner->Split_0.last_avail_index,
    ensures
        queue.next_work_run(memory::oks::<E>(seq![index, done[0], done[1], again])) == (
            queue,
            Step::<NextWorkView, Option<QueueWorkView>, E>::Done(Ok(None)),
        ),
{
    let replies = memory::oks::<E>(seq![index, done[0], done[1], again]);
    let resume = |queue: QueueCoreGetWork, at: NextWorkView, reply: Result<Seq<u8>, E>|
        queue.next_work_resume(at, reply);
    let first = queue.next_work_start::<E>();
    memory::lemma_run_take(queue, first, resume, replies, 0);
    memory::lemma_run_take(queue, first, resume, replies, 1);
    memory::lemma_run_take(queue, first, resume, replies, 2);
    memory::lemma_run_take(queue, first, resume, replies, 3);
}

/// A chain that the driver makes available on a split queue is handed out as a
/// piece of work: with the index of its first descriptor, and with the buffers
/// of all its descriptors in order.
pub proof fn law_split_work<E>(
    queue: QueueCoreGetWork,
    index: Seq<u8>,
    done: Seq<Seq<u8>>,
    element: Seq<u8>,
    entries: Seq<Seq<u8>>,
)
    requires
        queue.wf(),
        queue.inner is Split,
        le::le_u16(index) != queue.inner->Split_0.last_avail_index,
        chain::whole_chain(queue, entries),
        entries.len() <= descriptor::chain_limit(queue.queue_size),
    ensures
        queue.next_work_run(
            memory::oks::<E>(seq![index, done[0], done[1]].push(element)) + memory::oks(entries),
        ) == (
            with_taken(queue),
            Step::<NextWorkView, Option<QueueWorkView>, E>::Done(
                Ok(
                    Some(
                        QueueWorkView {
                            context: QueueCompletionContext::Split(
                                SplitQueueCompletionContext {
                                    descriptor_index: le::le_u16(element),
                                },
                            ),
                            payload: chain::buffers_of(queue, entries),
                        },
                    ),
                ),
            ),
        ),
{
    let taken = with_taken(queue);
    let head = le::le_u16(element);
    let found = memory::oks::<E>(seq![index, done[0], done[1]].push(element));
    let resume = |queue: QueueCoreGetWork, at: NextWorkView, reply: Result<Seq<u8>, E>|
        queue.next_work_resume(at, reply);
    law_split_work_found::<E>(queue, index, done, element);
    memory::lemma_run_append(
        queue,
        queue.next_work_start::<E>(),
        resume,
        found,
        memory::oks(entries),
    );
    assert(chain::whole_chain(taken, entries)) by {
        assert forall|i: int| 0 <= i < entries.drop_last().len() implies chain::flags_of(
            taken,
            #[trigger] entries.drop_last()[i],
        ).next() && !chain::stands_for_table(taken, entries.drop_last()[i]) by {
            assert(chain::flags_of(queue, entries.drop_last()[i]).next());
        }
    }
    chain::law_reads_whole_chain::<E>(taken, head, entries);
    assert(chain::buffers_of(taken, entries) =~= chain::buffers_of(queue, entries));
}

/// Where the next descriptor is ready, a packed queue follows the chain that
/// begins there.
pub proof fn law_packed_work_found<E>(
    queue: QueueCoreGetWork,
    descriptor: Seq<u8>,
    done: Seq<Seq<u8>>,
)
    requires
        queue.inner is Packed,
        packed::ready(
            PackedDescriptor::of_bytes(descriptor).flags,
            queue.inner->Packed_0.wrapped_bit,
        ),
    ensures
        queue.next_work_run(memory::oks::<E>(seq![done[0], done[1], descriptor])) == (
            queue,
            queue.enter_chain::<E>(queue.inner->Packed_0.next_avail_index),
        ),
{
    let replies = memory::oks::<E>(seq![done[0], done[1], descriptor]);
    let resume = |queue: QueueCoreGetWork, at: NextWorkView, reply: Result<Seq<u8>, E>|
        queue.next_work_resume(at, reply);
    let first = queue.next_work_start::<E>();
    memory::lemma_run_take(queue, first, resume, replies, 0);
    memory::lemma_run_take(queue, first, resume, replies, 1);
    memory::lemma_run_take(queue, first, resume, replies, 2);
}

/// Where the next descriptor of a packed queue is not ready, also when events
/// have been turned on, no work is handed out, and the queue is as it was.
pub proof fn law_no_packed_work<E>(
    queue: QueueCoreGetWork,
    descriptor: Seq<u8>,
    again: Seq<u8>,
    done: Seq<Seq<u8>>,
)
    requires
        queue.inner is Packed,
        !packed::ready(
            PackedDescriptor::of_bytes(descriptor).flags,
            queue.inner->Packed_0.wrapped_bit,
        ),
        !packed::ready(
            PackedDescriptor::of_bytes(again).flags,
            queue.inner->Packed_0.wrapped_bit,
        ),
    ensures
        queue.next_work_run(
            memory::oks::<E>(seq![done[0], done[1], descriptor, done[2], done[3], again]),
        ) == (queue, Step::<NextWorkView, Option<QueueWorkView>, E>::Done(Ok(None))),
{
    let replies = memory::oks::<E>(seq![done[0], done[1], descriptor, done[2], done[3], again]);
    let resume = |queue: QueueCoreGetWork, at: NextWorkView, reply: Result<Seq<u8>, E>|
        queue.next_work_resume(at, reply);
    let first = queue.next_work_start::<E>();
    memory::lemma_run_take(queue, first, resume, replies, 0);
    memory::lemma_run_take(queue, first, resume, replies, 1);
    memory::lemma_run_take(queue, first, resume, replies, 2);
    memory::lemma_run_take(queue, first, resume, replies, 3);
    memory::lemma_run_take(queue, first, resume, replies, 4);
    memory::lemma_run_take(queue, first, resume, replies, 5);
}

/// The search on a packed queue once it has counted the given descriptors in
/// the ring, and goes on.
pub open spec fn counting<E>(
    queue: QueueCoreGetWork,
    head: u16,
    entries: Seq<Seq<u8>>,
    payload: Seq<VirtioQueuePayload>,
) -> Step<NextWorkView, Option<QueueWorkView>, E> {
    queue.wait(
        NextWorkView::Count {
            head,
            chain: DescriptorChain {
                num_read: entries.len() as u16,
                descriptor_index: Some(chain::index_after(queue, head, entries)),
                ..queue.chain(false, head)
            },
            payload,
        },
    )
}

/// The descriptors of a chain in the ring of a packed queue are counted along
/// their links, whether or not they stand for indirect tables.
pub proof fn law_counts_links<E>(
    queue: QueueCoreGetWork,
    head: u16,
    entries: Seq<Seq<u8>>,
    payload: Seq<VirtioQueuePayload>,
)
    requires
        queue.inner is Packed,
        chain::can_begin(queue, head),
        forall|i: int|
            0 <= i < entries.len() ==> chain::flags_of(queue, #[trigger] entries[i]).next(),
        entries.len() < descriptor::chain_limit(queue.queue_size),
    ensures
        queue.next_work_run_from(queue.leave_chain::<E>(head, payload), memory::oks(entries)) == (
            queue,
            counting::<E>(queue, head, entries, payload),
        ),
        counting::<E>(queue, head, entries, payload)->request == descriptor::entry_request(
            memory::Region::Descriptors,
            chain::index_after(queue, head, entries),
        ),
    decreases entries.len(),
{
    let start = queue.leave_chain::<E>(head, payload);
    let resume = |queue: QueueCoreGetWork, at: NextWorkView, reply: Result<Seq<u8>, E>|
        queue.next_work_resume(at, reply);
    if entries.len() > 0 {
        let before = entries.drop_last();
        let last = entries.last();
        assert(entries =~= before.push(last));
        assert(entries[entries.len() - 1] == last);
        law_counts_links::<E>(queue, head, before, payload);
        memory::lemma_run_push(queue, start, resume, memory::oks(before), Ok(last));
        assert(memory::oks::<E>(entries) =~= memory::oks(before).push(Ok(last)));
        let walk = DescriptorChain {
            num_read: before.len() as u16,
            descriptor_index: Some(chain::index_after(queue, head, before)),
            ..queue.chain(false, head)
        };
        let found = chain::lemma_decodes(queue, head, before, last);
        assert(walk.raw(ChainAt::Entry, Ok::<Seq<u8>, E>(last)) == Some(found));
        assert(walk.next_resume(ChainAt::Entry, Ok::<Seq<u8>, E>(last)) == (
            walk.past(found),
            Step::<ChainAt, Option<QueueDescriptor>, E>::Done(Ok(Some(found))),
        ));
    }
}

/// A packed queue after `count` descriptors have been taken.
pub open spec fn with_consumed(queue: QueueCoreGetWork, head: u16, count: u16) -> QueueCoreGetWork {
    QueueCoreGetWork {
        inner: QueueGetWorkInner::Packed(queue.inner->Packed_0.consumed(head, count)),
        ..queue
    }
}

/// The work on a packed queue that begins at `head` and takes up the given
/// descriptors of the ring.
pub open spec fn packed_work(
    head: u16,
    entries: Seq<Seq<u8>>,
    payload: Seq<VirtioQueuePayload>,
) -> QueueWorkView {
    QueueWorkView {
        context: QueueCompletionContext::Packed(
            PackedQueueCompletionContext {
                descriptor_index: head,
                buffer_id: PackedDescriptor::of_bytes(entries.last()).buffer_id,
                descriptor_count: entries.len() as u16,
            },
        ),
        payload,
    }
}

/// The count ends with a descriptor without a link.
proof fn lemma_counts_last<E>(
    queue: QueueCoreGetWork,
    head: u16,
    before: Seq<Seq<u8>>,
    last: Seq<u8>,
    payload: Seq<VirtioQueuePayload>,
)
    requires
        queue.inner is Packed,
        chain::can_begin(queue, head),
        !chain::flags_of(queue, last).next(),
        before.len() < descriptor::chain_limit(queue.queue_size),
    ensures
        counting::<E>(queue, head, before, payload) matches Step::Wait { at, request }
            && queue.next_work_resume(at, Ok::<Seq<u8>, E>(last)) == (
            with_consumed(queue, head, (before.len() + 1) as u16),
            Step::<NextWorkView, Option<QueueWorkView>, E>::Done(
                Ok(Some(packed_work(head, before.push(last), payload))),
            ),
        ),
{
    let walk = DescriptorChain {
        num_read: before.len() as u16,
        descriptor_index: Some(chain::index_after(queue, head, before)),
        ..queue.chain(false, head)
    };
    let found = chain::lemma_decodes(queue, head, before, last);
    assert(walk.raw(ChainAt::Entry, Ok::<Seq<u8>, E>(last)) == Some(found));
    assert(walk.next_resume(ChainAt::Entry, Ok::<Seq<u8>, E>(last)) == (
        walk.past(found),
        Step::<ChainAt, Option<QueueDescriptor>, E>::Done(Ok(Some(found))),
    ));
    assert(before.push(last).last() == last);
}

/// Once the buffers of a chain on a packed queue have been read, the work takes
/// up the descriptors of the ring from the first one to the first one without a
/// link. It has the identifier of the last of them, and the queue moves on by
/// their number.
pub proof fn law_counts_ring<E>(
    queue: QueueCoreGetWork,
    head: u16,
    entries: Seq<Seq<u8>>,
    payload: Seq<VirtioQueuePayload>,
)
    requires
        queue.inner is Packed,
        chain::can_begin(queue, head),
        entries.len() > 0,
        forall|i: int|
            0 <= i < entries.len() - 1 ==> chain::flags_of(queue, #[trigger] entries[i]).next(),
        !chain::flags_of(queue, entries.last()).next(),
        entries.len() <= descriptor::chain_limit(queue.queue_size),
    ensures
        queue.next_work_run_from(queue.leave_chain::<E>(head, payload), memory::oks(entries)) == (
            with_consumed(queue, head, entries.len() as u16),
            Step::<NextWorkView, Option<QueueWorkView>, E>::Done(
                Ok(Some(packed_work(head, entries, payload))),
            ),
        ),
{
    let start = queue.leave_chain::<E>(head, payload);
    let resume = |queue: QueueCoreGetWork, at: NextWorkView, reply: Result<Seq<u8>, E>|
        queue.next_work_resume(at, reply);
    let before = entries.drop_last();
    let last = entries.last();
    law_counts_links::<E>(queue, head, before, payload);
    memory::lemma_run_push(queue, start, resume, memory::oks(before), Ok(last));
    assert(memory::oks::<E>(entries) =~= memory::oks(before).push(Ok(last)));
    assert(entries =~= before.push(last));
    lemma_counts_last::<E>(queue, head, before, last, payload);
}

/// A chain whose descriptors in the ring are linked on and on, for example in a
/// cycle, is given up as too long, and the queue stays as it was.
pub proof fn law_gives_up_long_ring<E>(
    queue: QueueCoreGetWork,
    head: u16,
    entries: Seq<Seq<u8>>,
    payload: Seq<VirtioQueuePayload>,
)
    requires
        queue.inner is Packed,
        chain::can_begin(queue, head),
        forall|i: int|
            0 <= i < entries.len() ==> chain::flags_of(queue, #[trigger] entries[i]).next(),
        entries.len() == descriptor::chain_limit(queue.queue_size),
    ensures
        queue.next_work_run_from(queue.leave_chain::<E>(head, payload), memory::oks(entries)) == (
            queue,
            Step::<NextWorkView, Option<QueueWorkView>, E>::Done(Err(QueueError::TooLong)),
        ),
{
    let start = queue.leave_chain::<E>(head, payload);
    let resume = |queue: QueueCoreGetWork, at: NextWorkView, reply: Result<Seq<u8>, E>|
        queue.next_work_resume(at, reply);
    let before = entries.drop_last();
    let last = entries.last();
    assert(entries[entries.len() - 1] == last);
    law_counts_links::<E>(queue, head, before, payload);
    memory::lemma_run_push(queue, start, resume, memory::oks(before), Ok(last));
    assert(memory::oks::<E>(entries) =~= memory::oks(before).push(Ok(last)));
    let walk = DescriptorChain {
        num_read: before.len() as u16,
        descriptor_index: Some(chain::index_after(queue, head, before)),
        ..queue.chain(false, head)
    };
    let found = chain::lemma_decodes(queue, head, before, last);
    assert(walk.raw(ChainAt::Entry, Ok::<Seq<u8>, E>(last)) == Some(found));
    assert(walk.next_resume(ChainAt::Entry, Ok::<Seq<u8>, E>(last)) == (
        walk.past(found),
        Step::<ChainAt, Option<QueueDescriptor>, E>::Done(Err(QueueError::TooLong)),
    ));
}

/// A read that fails while the descriptors in the ring are counted ends the
/// search with the error of guest memory, and the queue stays as it was.
pub proof fn law_counting_access_fails<E>(
    queue: QueueCoreGetWork,
    head: u16,
    walk: DescriptorChain,
    payload: Seq<VirtioQueuePayload>,
    e: E,
)
    ensures
        queue.next_work_resume(
            NextWorkView::Count { head, chain: walk, payload },
            Err::<Seq<u8>, E>(e),
        ) == (
            queue,
            Step::<NextWorkView, Option<QueueWorkView>, E>::Done(Err(QueueError::Memory(e))),
        ),
{
}

/// A search on a packed queue that hands out no work, be it for want of work or
/// for an error, leaves the queue as it was.
pub proof fn law_packed_queue_kept<E>(
    queue: QueueCoreGetWork,
    at: NextWorkView,
    reply: Result<Seq<u8>, E>,
)
    requires
        queue.inner is Packed,
        queue.waits_at(at),
    ensures
        ({
            let (after, step) = queue.next_work_resume(at, reply);
            !(step matches Step::Done(Ok(Some(_)))) ==> after == queue
        }),
{
}

/// The counting of the descriptors in the ring is over, or has had fewer replies
/// than a chain may have descriptors.
proof fn lemma_counting<E>(
    queue: QueueCoreGetWork,
    head: u16,
    payload: Seq<VirtioQueuePayload>,
    replies: Seq<Result<Seq<u8>, E>>,
)
    requires
        queue.wf(),
        queue.inner is Packed,
    ensures
        ({
            let start = queue.leave_chain::<E>(head, payload);
            queue.next_work_run_from(start, replies).1 matches Step::Wait { at, request } ==> {
                &&& at matches NextWorkView::Count { chain, .. }
                &&& chain.max_desc_chain == descriptor::chain_limit(queue.queue_size)
                &&& !chain.indirect_support
                &&& chain.num_read == replies.len()
                &&& replies.len() < descriptor::chain_limit(queue.queue_size)
            }
        }),
    decreases replies.len(),
{
    if replies.len() > 0 {
        let start = queue.leave_chain::<E>(head, payload);
        let resume = |queue: QueueCoreGetWork, at: NextWorkView, reply: Result<Seq<u8>, E>|
            queue.next_work_resume(at, reply);
        lemma_counting::<E>(queue, head, payload, replies.drop_last());
        memory::lemma_run_push(queue, start, resume, replies.drop_last(), replies.last());
        assert(replies =~= replies.drop_last().push(replies.last()));
    }
}

/// The counting of the descriptors in the ring ends, whatever the driver writes:
/// within as many reads as a chain may have descriptors.
pub proof fn law_counting_ends<E>(
    queue: QueueCoreGetWork,
    head: u16,
    payload: Seq<VirtioQueuePayload>,
    replies: Seq<Result<Seq<u8>, E>>,
)
    requires
        queue.wf(),
        queue.inner is Packed,
        replies.len() >= descriptor::chain_limit(queue.queue_size),
    ensures
        queue.next_work_run_from(queue.leave_chain::<E>(head, payload), replies).1 is Done,
{
    lemma_counting::<E>(queue, head, payload, replies);
}

/// A chain that the driver makes available on a packed queue is handed out as a
/// piece of work: with its place in the ring, the identifier of its last
/// descriptor and the number of its descriptors, and with the buffers of all of
/// them in order. The queue moves on by their number.
pub proof fn law_packed_work<E>(
    queue: QueueCoreGetWork,
    done: Seq<Seq<u8>>,
    entries: Seq<Seq<u8>>,
)
    requires
        queue.wf(),
        queue.inner is Packed,
        chain::whole_chain(queue, entries),
        packed::ready(
            PackedDescriptor::of_bytes(entries[0]).flags,
            queue.inner->Packed_0.wrapped_bit,
        ),
        entries.len() <= descriptor::chain_limit(queue.queue_size),
    ensures
        ({
            let head = queue.inner->Packed_0.next_avail_index;
            queue.next_work_run(
                memory::oks::<E>(seq![done[0], done[1], entries[0]]) + memory::oks(entries)
                    + memory::oks(entries),
            ) == (
                with_consumed(queue, head, entries.len() as u16),
                Step::<NextWorkView, Option<QueueWorkView>, E>::Done(
                    Ok(Some(packed_work(head, entries, chain::buffers_of(queue, entries)))),
                ),
            )
        }),
{
    let head = queue.inner->Packed_0.next_avail_index;
    let found = memory::oks::<E>(seq![done[0], done[1], entries[0]]);
    let resume = |queue: QueueCoreGetWork, at: NextWorkView, reply: Result<Seq<u8>, E>|
        queue.next_work_resume(at, reply);
    let start = queue.next_work_start::<E>();
    law_packed_work_found::<E>(queue, entries[0], done);
    memory::lemma_run_append(queue, start, resume, found, memory::oks(entries));
    chain::law_reads_whole_chain::<E>(queue, head, entries);
    memory::lemma_run_append(
        queue,
        start,
        resume,
        found + memory::oks(entries),
        memory::oks(entries),
    );
    assert forall|i: int| 0 <= i < entries.len() - 1 implies chain::flags_of(
        queue,
        #[trigger] entries[i],
    ).next() by {
        assert(entries[i] == entries.drop_last()[i]);
    }
    law_counts_ring::<E>(queue, head, entries, chain::buffers_of(queue, entries));
}

/// What a chain holds does not depend on how far a split queue has got.
proof fn lemma_reads_alike_when_taken(
    queue: QueueCoreGetWork,
    size: u16,
    direct: Seq<Seq<u8>>,
    entry: Seq<u8>,
    table: Seq<Seq<u8>>,
)
    requires
        queue.inner is Split,
    ensures
        ({
            let taken = with_taken(queue);
            &&& chain::linked(queue, direct) ==> chain::linked(taken, direct)
            &&& chain::stands_for_table(taken, entry) == chain::stands_for_table(queue, entry)
            &&& chain::table_size_of(taken, entry) == chain::table_size_of(queue, entry)
            &&& chain::whole_table_chain(queue, size, table) ==> chain::whole_table_chain(
                taken,
                size,
                table,
            )
            &&& chain::buffers_of(taken, direct) == chain::buffers_of(queue, direct)
            &&& chain::buffers_of(taken, table) == chain::buffers_of(queue, table)
        }),
{
    let taken = with_taken(queue);
    if chain::linked(queue, direct) {
        assert forall|i: int| 0 <= i < direct.len() implies chain::flags_of(
            taken,
            #[trigger] direct[i],
        ).next() && !chain::stands_for_table(taken, direct[i]) by {
            assert(chain::flags_of(queue, direct[i]).next());
        }
    }
    if chain::whole_table_chain(queue, size, table) {
        let before = table.drop_last();
        assert forall|i: int|
            #![trigger before[i]]
            0 <= i < before.len() implies chain::table_link(taken, size, before, i)
            && !chain::flags_of(taken, before[i]).indirect() by {
            assert(chain::table_link(queue, size, before, i));
        }
        assert(chain::table_linked(taken, size, before));
    }
    assert(chain::buffers_of(taken, direct) =~= chain::buffers_of(queue, direct));
    assert(chain::buffers_of(taken, table) =~= chain::buffers_of(queue, table));
}

/// A chain on a split queue that leads into an indirect table is handed out as a
/// piece of work: with the buffers of its descriptors before the table, and then
/// with those of the table, in order.
pub proof fn law_split_table_work<E>(
    queue: QueueCoreGetWork,
    index: Seq<u8>,
    done: Seq<Seq<u8>>,
    element: Seq<u8>,
    direct: Seq<Seq<u8>>,
    entry: Seq<u8>,
    granted: Seq<u8>,
    table: Seq<Seq<u8>>,
)
    requires
        queue.wf(),
        queue.inner is Split,
        le::le_u16(index) != queue.inner->Split_0.last_avail_index,
        chain::linked(queue, direct),
        direct.len() < descriptor::chain_limit(queue.queue_size),
        chain::stands_for_table(queue, entry),
        chain::whole_table_chain(queue, chain::table_size_of(queue, entry), table),
        chain::table_size_of(queue, entry) > 0,
        direct.len() + table.len() <= chain::table_limit(
            chain::table_size_of(queue, entry),
            direct.len(),
        ),
    ensures
        queue.next_work_run(
            memory::oks::<E>(seq![index, done[0], done[1]].push(element)) + memory::oks(
                direct.push(entry),
            ).push(Ok(granted)) + memory::oks(table),
        ) == (
            with_taken(queue),
            Step::<NextWorkView, Option<QueueWorkView>, E>::Done(
                Ok(
                    Some(
                        QueueWorkView {
                            context: QueueCompletionContext::Split(
                                SplitQueueCompletionContext {
                                    descriptor_index: le::le_u16(element),
                                },
                            ),
                            payload: chain::buffers_of(queue, direct) + chain::buffers_of(
                                queue,
                                table,
                            ),
                        },
                    ),
                ),
            ),
        ),
{
    let taken = with_taken(queue);
    let head = le::le_u16(element);
    let size = chain::table_size_of(queue, entry);
    let found = memory::oks::<E>(seq![index, done[0], done[1]].push(element));
    let entered = memory::oks::<E>(direct.push(entry)).push(Ok(granted));
    let resume = |queue: QueueCoreGetWork, at: NextWorkView, reply: Result<Seq<u8>, E>|
        queue.next_work_resume(at, reply);
    let start = queue.next_work_start::<E>();
    lemma_reads_alike_when_taken(queue, size, direct, entry, table);
    law_split_work_found::<E>(queue, index, done, element);
    memory::lemma_run_append(queue, start, resume, found, entered);
    chain::law_enters_table::<E>(taken, head, direct, entry, granted);
    memory::lemma_run_append(queue, start, resume, found + entered, memory::oks(table));
    chain::law_reads_whole_table::<E>(taken, head, direct, entry, table);
}

/// A chain on a packed queue that leads into an indirect table is handed out as
/// a piece of work: with the buffers of its descriptors before the table, and
/// then with those of the table, in order. It takes up the descriptors of the
/// ring, `ring`, up to the first one without a link, and the queue moves on by
/// their number, however many descriptors the table has.
pub proof fn law_packed_table_work<E>(
    queue: QueueCoreGetWork,
    done: Seq<Seq<u8>>,
    first: Seq<u8>,
    direct: Seq<Seq<u8>>,
    entry: Seq<u8>,
    granted: Seq<u8>,
    table: Seq<Seq<u8>>,
    ring: Seq<Seq<u8>>,
)
    requires
        queue.wf(),
        queue.inner is Packed,
        packed::ready(
            PackedDescriptor::of_bytes(first).flags,
            queue.inner->Packed_0.wrapped_bit,
        ),
        chain::linked(queue, direct),
        direct.len() < descriptor::chain_limit(queue.queue_size),
        chain::stands_for_table(queue, entry),
        chain::whole_table_chain(queue, chain::table_size_of(queue, entry), table),
        chain::table_size_of(queue, entry) > 0,
        direct.len() + table.len() <= chain::table_limit(
            chain::table_size_of(queue, entry),
            direct.len(),
        ),
        0 < ring.len() <= descriptor::chain_limit(queue.queue_size),
        forall|i: int|
            0 <= i < ring.len() - 1 ==> chain::flags_of(queue, #[trigger] ring[i]).next(),
        !chain::flags_of(queue, ring.last()).next(),
    ensures
        ({
            let head = queue.inner->Packed_0.next_avail_index;
            queue.next_work_run(
                memory::oks::<E>(seq![done[0], done[1], first]) + memory::oks(
                    direct.push(entry),
                ).push(Ok(granted)) + memory::oks(table) + memory::oks(ring),
            ) == (
                with_consumed(queue, head, ring.len() as u16),
                Step::<NextWorkView, Option<QueueWorkView>, E>::Done(
                    Ok(
                        Some(
                            packed_work(
                                head,
                                ring,
                                chain::buffers_of(queue, direct) + chain::buffers_of(queue, table),
                            ),
                        ),
                    ),
                ),
            )
        }),
{
    let head = queue.inner->Packed_0.next_avail_index;
    let found = memory::oks::<E>(seq![done[0], done[1], first]);
    let entered = memory::oks::<E>(direct.push(entry)).push(Ok(granted));
    let payload = chain::buffers_of(queue, direct) + chain::buffers_of(queue, table);
    let resume = |queue: QueueCoreGetWork, at: NextWorkView, reply: Result<Seq<u8>, E>|
        queue.next_work_resume(at, reply);
    let start = queue.next_work_start::<E>();
    law_packed_work_found::<E>(queue, first, done);
    memory::lemma_run_append(queue, start, resume, found, entered);
    chain::law_enters_table::<E>(queue, head, direct, entry, granted);
    memory::lemma_run_append(queue, start, resume, found + entered, memory::oks(table));
    chain::law_reads_whole_table::<E>(queue, head, direct, entry, table);
    memory::lemma_run_append(
        queue,
        start,
        resume,
        found + entered + memory::oks(table),
        memory::oks(ring),
    );
    law_counts_ring::<E>(queue, head, ring, payload);
}

/// How many accesses have brought no buffer when a walk waits at `at`: those
/// that led it into an indirect table.
pub open spec fn detour(walk: DescriptorChain, at: ChainAt) -> nat {
    if walk.indirect_queue {
        2
    } else if at is Table {
        1
    } else {
        0
    }
}

/// The reading of a chain has had as many replies as it has buffers, but for
/// those that led it into an indirect table; the counting that follows, as many
/// more as it has counted descriptors.
proof fn lemma_chain_accesses<E>(
    queue: QueueCoreGetWork,
    head: u16,
    replies: Seq<Result<Seq<u8>, E>>,
)
    requires
        queue.wf(),
    ensures
        ({
            let (after, step) = queue.next_work_run_from(queue.enter_chain::<E>(head), replies);
            step matches Step::Wait { at, request } ==> {
                &&& after == queue
                &&& match at {
                    NextWorkView::Payload { reader, at, payload, .. } => {
                        &&& reader.chain.num_read < descriptor::MAX_DESC_CHAIN
                        &&& reader.chain.max_desc_chain <= descriptor::MAX_DESC_CHAIN
                        &&& at is Table ==> !reader.chain.indirect_queue
                        &&& at is FirstOfTable ==> reader.chain.indirect_queue
                        &&& replies.len() == reader.chain.num_read + detour(reader.chain, at)
                    },
                    NextWorkView::Count { chain, .. } => {
                        &&& !chain.indirect_support
                        &&& chain.num_read < chain.max_desc_chain <= descriptor::MAX_DESC_CHAIN
                        &&& replies.len() <= descriptor::MAX_DESC_CHAIN + 2 + chain.num_read
                    },
                    _ => false,
                }
            }
        }),
    decreases replies.len(),
{
    if replies.len() > 0 {
        let start = queue.enter_chain::<E>(head);
        let resume = |queue: QueueCoreGetWork, at: NextWorkView, reply: Result<Seq<u8>, E>|
            queue.next_work_resume(at, reply);
        lemma_chain_accesses::<E>(queue, head, replies.drop_last());
        memory::lemma_run_push(queue, start, resume, replies.drop_last(), replies.last());
        assert(replies =~= replies.drop_last().push(replies.last()));
    }
}

/// Once the search has found a chain it ends, whatever the driver writes: within
/// 128 reads of descriptors for the buffers, two accesses on the way into an
/// indirect table, and, on a packed queue, 128 reads for the count.
pub proof fn law_chain_ends<E>(
    queue: QueueCoreGetWork,
    head: u16,
    replies: Seq<Result<Seq<u8>, E>>,
)
    requires
        queue.wf(),
        replies.len() >= 2 * descriptor::MAX_DESC_CHAIN + 2,
    ensures
        queue.next_work_run_from(queue.enter_chain::<E>(head), replies).1 is Done,
{
    lemma_chain_accesses::<E>(queue, head, replies);
}

/// The number of buffers that the search collects is bounded, whatever the
/// driver writes: no piece of work has more than 128 buffers, and the search
/// never holds more. A search that waits where it can wait goes on to where it
/// can wait.
pub proof fn law_work_is_bounded<E>(
    queue: QueueCoreGetWork,
    at: NextWorkView,
    reply: Result<Seq<u8>, E>,
)
    requires
        queue.wf(),
        queue.waits_at(at),
        queue.answers(at, reply),
    ensures
        ({
            let (after, step) = queue.next_work_resume(at, reply);
            &&& step matches Step::Wait { at: next, request } ==> after.waits_at(next)
            &&& step matches Step::Wait {
                at: NextWorkView::Payload { payload, .. },
                request,
            } ==> payload.len() < descriptor::MAX_DESC_CHAIN
            &&& step matches Step::Wait {
                at: NextWorkView::Count { payload, .. },
                request,
            } ==> payload.len() <= descriptor::MAX_DESC_CHAIN
            &&& step matches Step::Done(Ok(Some(work))) ==> work.payload.len()
                <= descriptor::MAX_DESC_CHAIN
        }),
{
    if let QueueGetWorkInner::Split(split) = queue.inner {
        lemma_mod_bound(split.taken().last_avail_index as int, queue.queue_size as int);
    }
}

/// A piece of work is seen with its context and with all of its buffers, in
/// order, and the search for it with all that it holds.
pub proof fn law_what_is_seen<E>(
    work: QueueWork,
    at: NextWork,
    request: Request,
    data: Vec<u8>,
    e: E,
    error: QueueError<E>,
)
    ensures
        work@.context == work.context && work@.payload == work.payload@,
        at@ == (match at {
            NextWork::Split(at) => NextWorkView::Split(at),
            NextWork::Element { index } => NextWorkView::Element { index },
            NextWork::Packed(at) => NextWorkView::Packed(at),
            NextWork::Payload { head, reader, at, payload } => NextWorkView::Payload {
                head,
                reader,
                at,
                payload: payload@,
            },
            NextWork::Count { head, chain, payload } => NextWorkView::Count {
                head,
                chain,
                payload: payload@,
            },
        }),
        get_work::next_work_view::<E>((Step::Wait { at, request })) == (Step::<
            NextWorkView,
            Option<QueueWorkView>,
            E,
        >::Wait { at: at@, request }),
        get_work::next_work_view::<E>(Step::Done(Ok(Some(work)))) == Step::<
            NextWorkView,
            Option<QueueWorkView>,
            E,
        >::Done(Ok(Some((QueueWorkView { context: work.context, payload: work.payload@ })))),
        get_work::next_work_view::<E>(Step::Done(Ok(None))) == Step::<
            NextWorkView,
            Option<QueueWorkView>,
            E,
        >::Done(Ok(None)),
        get_work::next_work_view::<E>(Step::Done(Err(error))) == Step::<
            NextWorkView,
            Option<QueueWorkView>,
            E,
        >::Done(Err(error)),
        memory::reply_view::<E>(Ok(data)) == Ok::<Seq<u8>, E>(data@),
        memory::reply_view::<E>(Err(e)) == Err::<Seq<u8>, E>(e),
{
}

/// A piece of work begins with the descriptor that its context names, on either
/// layout, whatever its identifier, its number of descriptors and its buffers
/// are.
pub proof fn law_descriptor_index(work: QueueWork, head: u16, buffer_id: u16, count: u16)
    ensures
        work.context == QueueCompletionContext::Split(
            (SplitQueueCompletionContext { descriptor_index: head }),
        ) ==> work.descriptor_index() == head,
        work.context == QueueCompletionContext::Packed(
            (PackedQueueCompletionContext {
                descriptor_index: head,
                buffer_id,
                descriptor_count: count,
            }),
        ) ==> work.descriptor_index() == head,
{
}

} // verus!
