//! Single steps of the search along a descriptor chain.

use crate::descriptor;
use crate::descriptor::{
    ChainAt, DescriptorChain, DescriptorReader, QueueDescriptor, VirtioQueuePayload,
};
use crate::get_work::{NextWorkView, QueueCoreGetWork};
use crate::laws::chain;
use crate::laws::guest;
use crate::laws::search;
use crate::laws::search::{read_slot, searched_from, search_asks_from};
use crate::laws::work;
use crate::memory::{QueueError, Region, Request, Step};
use crate::queue::QueueWorkView;
use vstd::prelude::*;

verus! {

/// Whether the search waits, at `step`, for the reply to `request`, and goes on
/// with `next` where the reply brings `data`.
#[verifier::opaque]
pub open spec fn resumes<E>(
    queue: QueueCoreGetWork,
    step: Step<NextWorkView, Option<QueueWorkView>, E>,
    request: Request,
    data: Seq<u8>,
    next: (QueueCoreGetWork, Step<NextWorkView, Option<QueueWorkView>, E>),
) -> bool {
    step matches Step::Wait { at, request: waited } && waited == request && queue.next_work_resume(
        at,
        Ok::<Seq<u8>, E>(data),
    ) == next
}

/// One more access of a search that is known to wait.
pub proof fn lemma_search_next<E>(
    queue: QueueCoreGetWork,
    start: Step<NextWorkView, Option<QueueWorkView>, E>,
    mem: spec_fn(int, Region) -> Seq<u8>,
    from: int,
    n: nat,
    step: Step<NextWorkView, Option<QueueWorkView>, E>,
    request: Request,
    data: Seq<u8>,
    next: (QueueCoreGetWork, Step<NextWorkView, Option<QueueWorkView>, E>),
)
    requires
        searched_from(queue, start, mem, from, n) == (queue, step),
        resumes(queue, step, request, data, next),
        guest::fetched(mem, from + n, request) == data,
    ensures
        searched_from(queue, start, mem, from, n + 1) == next,
        search_asks_from(queue, start, mem, from, n + 1) == search_asks_from(
            queue,
            start,
            mem,
            from,
            n,
        ).push(request),
{
    reveal(resumes);
    search::lemma_search_once::<E>(queue, start, mem, from, n);
}

/// The request for the descriptor after the given ones of a chain in the queue.
pub open spec fn next_request(queue: QueueCoreGetWork, head: u16, before: Seq<Seq<u8>>) -> Request {
    read_slot(Region::Descriptors, chain::index_after(queue, head, before) as int)
}

/// The request for the descriptor after the given ones of an indirect table.
pub open spec fn next_table_request(
    queue: QueueCoreGetWork,
    entry: Seq<u8>,
    before: Seq<Seq<u8>>,
) -> Request {
    read_slot(
        Region::Indirect,
        chain::table_index_after(queue, chain::table_size_of(queue, entry), before) as int,
    )
}

/// A chain begins with none of its descriptors read.
pub proof fn lemma_begins<E>(queue: QueueCoreGetWork, head: u16)
    ensures
        queue.enter_chain::<E>(head) == chain::reading::<E>(queue, head, Seq::empty()),
{
    assert(chain::buffers_of(queue, Seq::empty()) =~= Seq::empty());
}

/// A descriptor that is linked to another.
pub proof fn lemma_link<E>(
    queue: QueueCoreGetWork,
    head: u16,
    before: Seq<Seq<u8>>,
    entry: Seq<u8>,
)
    requires
        chain::can_begin(queue, head),
        chain::flags_of(queue, entry).next(),
        !chain::stands_for_table(queue, entry),
        before.len() + 1 < descriptor::chain_limit(queue.queue_size),
    ensures
        resumes::<E>(
            queue,
            chain::reading(queue, head, before),
            next_request(queue, head, before),
            entry,
            (queue, chain::reading(queue, head, before.push(entry))),
        ),
{
    reveal(resumes);
    chain::lemma_link::<E>(queue, head, before, entry);
}

/// The walk at a descriptor of a chain in the queue that does not stand for a
/// table.
proof fn lemma_walk<E>(
    queue: QueueCoreGetWork,
    head: u16,
    before: Seq<Seq<u8>>,
    entry: Seq<u8>,
) -> (found: QueueDescriptor)
    requires
        chain::can_begin(queue, head),
        !chain::stands_for_table(queue, entry),
        before.len() < descriptor::chain_limit(queue.queue_size),
    ensures
        chain::walk_after(queue, head, before).next_resume(
            ChainAt::Entry,
            Ok::<Seq<u8>, E>(entry),
        ) == (
            chain::walk_after(queue, head, before).past(found),
            Step::<ChainAt, Option<QueueDescriptor>, E>::Done(
                if chain::flags_of(queue, entry).next() && before.len() + 1
                    == descriptor::chain_limit(queue.queue_size) {
                    Err(QueueError::TooLong)
                } else {
                    Ok(Some(found))
                },
            ),
        ),
        descriptor::payload_of(found) == chain::buffer_of(queue, entry),
        chain::walk_after(queue, head, before).past(found).descriptor_index is Some
            <==> chain::flags_of(queue, entry).next(),
{
    let walk = chain::walk_after(queue, head, before);
    let found = chain::lemma_decodes(queue, head, before, entry);
    assert(walk.raw(ChainAt::Entry, Ok::<Seq<u8>, E>(entry)) == Some(found));
    found
}

/// The last descriptor of a chain.
pub proof fn lemma_last<E>(
    queue: QueueCoreGetWork,
    head: u16,
    before: Seq<Seq<u8>>,
    entry: Seq<u8>,
)
    requires
        chain::can_begin(queue, head),
        !chain::flags_of(queue, entry).next(),
        !chain::stands_for_table(queue, entry),
        before.len() < descriptor::chain_limit(queue.queue_size),
    ensures
        resumes::<E>(
            queue,
            chain::reading(queue, head, before),
            next_request(queue, head, before),
            entry,
            (queue, queue.leave_chain(head, chain::buffers_of(queue, before.push(entry)))),
        ),
{
    reveal(resumes);
    lemma_walk::<E>(queue, head, before, entry);
    assert(chain::buffers_of(queue, before.push(entry)) =~= chain::buffers_of(queue, before).push(
        chain::buffer_of(queue, entry),
    ));
}

/// A descriptor that makes a chain too long.
pub proof fn lemma_too_long<E>(
    queue: QueueCoreGetWork,
    head: u16,
    before: Seq<Seq<u8>>,
    entry: Seq<u8>,
)
    requires
        chain::can_begin(queue, head),
        chain::flags_of(queue, entry).next(),
        !chain::stands_for_table(queue, entry),
        before.len() + 1 == descriptor::chain_limit(queue.queue_size),
    ensures
        resumes::<E>(
            queue,
            chain::reading(queue, head, before),
            next_request(queue, head, before),
            entry,
            (queue, Step::Done(Err(QueueError::TooLong))),
        ),
{
    reveal(resumes);
    lemma_walk::<E>(queue, head, before, entry);
}

/// The search that waits for the indirect table that `entry` stands for.
pub open spec fn taking_table<E>(
    queue: QueueCoreGetWork,
    head: u16,
    direct: Seq<Seq<u8>>,
    entry: Seq<u8>,
) -> Step<NextWorkView, Option<QueueWorkView>, E> {
    let table = chain::buffer_of(queue, entry);
    queue.wait(
        NextWorkView::Payload {
            head,
            reader: DescriptorReader { chain: chain::walk_after(queue, head, direct) },
            at: ChainAt::Table { address: table.address, length: table.length },
            payload: chain::buffers_of(queue, direct),
        },
    )
}

/// A descriptor that stands for an indirect table.
pub proof fn lemma_to_table<E>(
    queue: QueueCoreGetWork,
    head: u16,
    direct: Seq<Seq<u8>>,
    entry: Seq<u8>,
)
    requires
        chain::can_begin(queue, head),
        chain::stands_for_table(queue, entry),
    ensures
        resumes::<E>(
            queue,
            chain::reading(queue, head, direct),
            next_request(queue, head, direct),
            entry,
            (queue, taking_table(queue, head, direct, entry)),
        ),
{
    reveal(resumes);
    let walk = chain::walk_after(queue, head, direct);
    let found = chain::lemma_decodes(queue, head, direct, entry);
    let table = chain::buffer_of(queue, entry);
    assert(found.address == table.address && found.length == table.length);
    assert(walk.raw(ChainAt::Entry, Ok::<Seq<u8>, E>(entry)) == Some(found));
    let at = ChainAt::Table { address: table.address, length: table.length };
    assert(walk.next_resume(ChainAt::Entry, Ok::<Seq<u8>, E>(entry)) == (
        walk,
        Step::<ChainAt, Option<QueueDescriptor>, E>::Wait { at, request: walk.request_at(at) },
    ));
}

/// The table is granted.
pub proof fn lemma_in_table<E>(
    queue: QueueCoreGetWork,
    head: u16,
    direct: Seq<Seq<u8>>,
    entry: Seq<u8>,
    granted: Seq<u8>,
)
    ensures
        resumes::<E>(
            queue,
            taking_table(queue, head, direct, entry),
            (Request::Subrange {
                region: Region::Indirect,
                addr: chain::buffer_of(queue, entry).address,
                len: chain::buffer_of(queue, entry).length as u64,
            }),
            granted,
            (queue, chain::reading_table(queue, head, direct, entry, Seq::empty())),
        ),
{
    reveal(resumes);
    let walk = chain::walk_after(queue, head, direct);
    let table = chain::buffer_of(queue, entry);
    let at = ChainAt::Table { address: table.address, length: table.length };
    let entered = walk.entered(table.length);
    assert(entered == chain::table_walk_after(queue, head, direct, entry, Seq::empty()));
    assert(walk.next_resume(at, Ok::<Seq<u8>, E>(granted)) == (
        entered,
        Step::<ChainAt, Option<QueueDescriptor>, E>::Wait {
            at: ChainAt::FirstOfTable,
            request: entered.request_at(ChainAt::FirstOfTable),
        },
    ));
    assert(chain::buffers_of(queue, direct) + chain::buffers_of(queue, Seq::empty())
        =~= chain::buffers_of(queue, direct));
}

/// Where the walk waits in an indirect table.
pub open spec fn table_at(before: Seq<Seq<u8>>) -> ChainAt {
    if before.len() == 0 {
        ChainAt::FirstOfTable
    } else {
        ChainAt::Entry
    }
}

/// The walk at a descriptor of an indirect table that does not stand for another.
proof fn lemma_table_walk<E>(
    queue: QueueCoreGetWork,
    head: u16,
    direct: Seq<Seq<u8>>,
    entry: Seq<u8>,
    before: Seq<Seq<u8>>,
    last: Seq<u8>,
) -> (found: QueueDescriptor)
    requires
        chain::table_size_of(queue, entry) > 0,
        !chain::flags_of(queue, last).indirect(),
        direct.len() + before.len() < chain::table_limit(
            chain::table_size_of(queue, entry),
            direct.len(),
        ),
    ensures
        ({
            let size = chain::table_size_of(queue, entry);
            let walk = chain::table_walk_after(queue, head, direct, entry, before);
            let goes_on = chain::table_link(queue, size, before.push(last), before.len() as int);
            &&& walk.next_resume(table_at(before), Ok::<Seq<u8>, E>(last)) == (
                walk.past(found),
                Step::<ChainAt, Option<QueueDescriptor>, E>::Done(
                    if goes_on && direct.len() + before.len() + 1 == chain::table_limit(
                        size,
                        direct.len(),
                    ) {
                        Err(QueueError::TooLong)
                    } else {
                        Ok(Some(found))
                    },
                ),
            )
            &&& walk.past(found).descriptor_index is Some <==> goes_on
            &&& goes_on ==> walk.past(found) == chain::table_walk_after(
                queue,
                head,
                direct,
                entry,
                before.push(last),
            )
        }),
        descriptor::payload_of(found) == chain::buffer_of(queue, last),
{
    let size = chain::table_size_of(queue, entry);
    let walk = chain::table_walk_after(queue, head, direct, entry, before);
    let found = chain::lemma_table_decodes(queue, size, before, last);
    assert(walk.raw(table_at(before), Ok::<Seq<u8>, E>(last)) == Some(found));
    found
}

proof fn lemma_more_buffers(
    queue: QueueCoreGetWork,
    direct: Seq<Seq<u8>>,
    before: Seq<Seq<u8>>,
    last: Seq<u8>,
)
    ensures
        chain::buffers_of(queue, direct) + chain::buffers_of(queue, before.push(last)) == (
        chain::buffers_of(queue, direct) + chain::buffers_of(queue, before)).push(
            chain::buffer_of(queue, last),
        ),
{
    assert(chain::buffers_of(queue, direct) + chain::buffers_of(queue, before.push(last)) =~= (
    chain::buffers_of(queue, direct) + chain::buffers_of(queue, before)).push(
        chain::buffer_of(queue, last),
    ));
}

/// A descriptor of an indirect table that is followed by another.
pub proof fn lemma_table_link<E>(
    queue: QueueCoreGetWork,
    head: u16,
    direct: Seq<Seq<u8>>,
    entry: Seq<u8>,
    before: Seq<Seq<u8>>,
    last: Seq<u8>,
)
    requires
        chain::table_size_of(queue, entry) > 0,
        chain::table_link(
            queue,
            chain::table_size_of(queue, entry),
            before.push(last),
            before.len() as int,
        ),
        !chain::flags_of(queue, last).indirect(),
        direct.len() + before.len() + 1 < chain::table_limit(
            chain::table_size_of(queue, entry),
            direct.len(),
        ),
    ensures
        resumes::<E>(
            queue,
            chain::reading_table(queue, head, direct, entry, before),
            next_table_request(queue, entry, before),
            last,
            (queue, chain::reading_table(queue, head, direct, entry, before.push(last))),
        ),
{
    reveal(resumes);
    lemma_table_walk::<E>(queue, head, direct, entry, before, last);
    lemma_more_buffers(queue, direct, before, last);
}

/// The last descriptor of a chain in an indirect table.
pub proof fn lemma_table_last<E>(
    queue: QueueCoreGetWork,
    head: u16,
    direct: Seq<Seq<u8>>,
    entry: Seq<u8>,
    before: Seq<Seq<u8>>,
    last: Seq<u8>,
)
    requires
        chain::table_size_of(queue, entry) > 0,
        !chain::table_link(
            queue,
            chain::table_size_of(queue, entry),
            before.push(last),
            before.len() as int,
        ),
        !chain::flags_of(queue, last).indirect(),
        direct.len() + before.len() < chain::table_limit(
            chain::table_size_of(queue, entry),
            direct.len(),
        ),
    ensures
        resumes::<E>(
            queue,
            chain::reading_table(queue, head, direct, entry, before),
            next_table_request(queue, entry, before),
            last,
            (
                queue,
                queue.leave_chain(
                    head,
                    chain::buffers_of(queue, direct) + chain::buffers_of(
                        queue,
                        before.push(last),
                    ),
                ),
            ),
        ),
{
    reveal(resumes);
    lemma_table_walk::<E>(queue, head, direct, entry, before, last);
    lemma_more_buffers(queue, direct, before, last);
}

/// A descriptor of an indirect table that makes a chain too long.
pub proof fn lemma_table_too_long<E>(
    queue: QueueCoreGetWork,
    head: u16,
    direct: Seq<Seq<u8>>,
    entry: Seq<u8>,
    before: Seq<Seq<u8>>,
    last: Seq<u8>,
)
    requires
        chain::table_size_of(queue, entry) > 0,
        chain::table_link(
            queue,
            chain::table_size_of(queue, entry),
            before.push(last),
            before.len() as int,
        ),
        !chain::flags_of(queue, last).indirect(),
        direct.len() + before.len() + 1 == chain::table_limit(
            chain::table_size_of(queue, entry),
            direct.len(),
        ),
    ensures
        resumes::<E>(
            queue,
            chain::reading_table(queue, head, direct, entry, before),
            next_table_request(queue, entry, before),
            last,
            (queue, Step::Done(Err(QueueError::TooLong))),
        ),
{
    reveal(resumes);
    lemma_table_walk::<E>(queue, head, direct, entry, before, last);
}

/// A descriptor of an indirect table that stands for another table.
pub proof fn lemma_table_nested<E>(
    queue: QueueCoreGetWork,
    head: u16,
    direct: Seq<Seq<u8>>,
    entry: Seq<u8>,
    before: Seq<Seq<u8>>,
    nested: Seq<u8>,
)
    requires
        chain::table_size_of(queue, entry) > 0,
        chain::stands_for_table(queue, nested),
    ensures
        resumes::<E>(
            queue,
            chain::reading_table(queue, head, direct, entry, before),
            next_table_request(queue, entry, before),
            nested,
            (queue, Step::Done(Err(QueueError::DoubleIndirect))),
        ),
{
    reveal(resumes);
    let size = chain::table_size_of(queue, entry);
    let walk = chain::table_walk_after(queue, head, direct, entry, before);
    let found = chain::lemma_table_decodes(queue, size, before, nested);
    assert(walk.raw(table_at(before), Ok::<Seq<u8>, E>(nested)) == Some(found));
    assert(walk.next_resume(table_at(before), Ok::<Seq<u8>, E>(nested)) == (
        walk,
        Step::<ChainAt, Option<QueueDescriptor>, E>::Done(Err(QueueError::DoubleIndirect)),
    ));
}

/// The walk at a descriptor of the ring that is counted.
proof fn lemma_count_walk<E>(
    queue: QueueCoreGetWork,
    head: u16,
    before: Seq<Seq<u8>>,
    entry: Seq<u8>,
) -> (r: (DescriptorChain, QueueDescriptor))
    requires
        queue.inner is Packed,
        chain::can_begin(queue, head),
        before.len() < descriptor::chain_limit(queue.queue_size),
    ensures
        r.0 == (DescriptorChain {
            num_read: before.len() as u16,
            descriptor_index: Some(chain::index_after(queue, head, before)),
            ..queue.chain(false, head)
        }),
        r.0.next_resume(ChainAt::Entry, Ok::<Seq<u8>, E>(entry)) == (
            r.0.past(r.1),
            Step::<ChainAt, Option<QueueDescriptor>, E>::Done(
                if chain::flags_of(queue, entry).next() && before.len() + 1
                    == descriptor::chain_limit(queue.queue_size) {
                    Err(QueueError::TooLong)
                } else {
                    Ok(Some(r.1))
                },
            ),
        ),
        r.0.past(r.1).descriptor_index is Some <==> chain::flags_of(queue, entry).next(),
        r.0.past(r.1).num_read == before.len() + 1,
        chain::flags_of(queue, entry).next() ==> r.0.past(r.1) == (DescriptorChain {
            num_read: before.push(entry).len() as u16,
            descriptor_index: Some(chain::index_after(queue, head, before.push(entry))),
            ..queue.chain(false, head)
        }),
        r.1.buffer_id == Some(crate::layout::PackedDescriptor::of_bytes(entry).buffer_id),
{
    let walk = DescriptorChain {
        num_read: before.len() as u16,
        descriptor_index: Some(chain::index_after(queue, head, before)),
        ..queue.chain(false, head)
    };
    let found = chain::lemma_decodes(queue, head, before, entry);
    assert(walk.raw(ChainAt::Entry, Ok::<Seq<u8>, E>(entry)) == Some(found));
    (walk, found)
}

/// The count begins with no descriptor counted.
pub proof fn lemma_count_begins<E>(
    queue: QueueCoreGetWork,
    head: u16,
    payload: Seq<VirtioQueuePayload>,
)
    requires
        queue.inner is Packed,
    ensures
        queue.leave_chain::<E>(head, payload) == work::counting::<E>(
            queue,
            head,
            Seq::empty(),
            payload,
        ),
{
}

/// A descriptor of the ring that is linked to another.
pub proof fn lemma_count_link<E>(
    queue: QueueCoreGetWork,
    head: u16,
    payload: Seq<VirtioQueuePayload>,
    before: Seq<Seq<u8>>,
    entry: Seq<u8>,
)
    requires
        queue.inner is Packed,
        chain::can_begin(queue, head),
        chain::flags_of(queue, entry).next(),
        before.len() + 1 < descriptor::chain_limit(queue.queue_size),
    ensures
        resumes::<E>(
            queue,
            work::counting(queue, head, before, payload),
            next_request(queue, head, before),
            entry,
            (queue, work::counting(queue, head, before.push(entry), payload)),
        ),
{
    reveal(resumes);
    lemma_count_walk::<E>(queue, head, before, entry);
}

/// The last descriptor of the ring.
pub proof fn lemma_count_last<E>(
    queue: QueueCoreGetWork,
    head: u16,
    payload: Seq<VirtioQueuePayload>,
    before: Seq<Seq<u8>>,
    entry: Seq<u8>,
)
    requires
        queue.inner is Packed,
        chain::can_begin(queue, head),
        !chain::flags_of(queue, entry).next(),
        before.len() < descriptor::chain_limit(queue.queue_size),
    ensures
        resumes::<E>(
            queue,
            work::counting(queue, head, before, payload),
            next_request(queue, head, before),
            entry,
            (
                work::with_consumed(queue, head, (before.len() + 1) as u16),
                Step::Done(Ok(Some(work::packed_work(head, before.push(entry), payload)))),
            ),
        ),
{
    reveal(resumes);
    lemma_count_walk::<E>(queue, head, before, entry);
    assert(before.push(entry).last() == entry);
}

/// A descriptor of the ring that makes a chain too long.
pub proof fn lemma_count_too_long<E>(
    queue: QueueCoreGetWork,
    head: u16,
    payload: Seq<VirtioQueuePayload>,
    before: Seq<Seq<u8>>,
    entry: Seq<u8>,
)
    requires
        queue.inner is Packed,
        chain::can_begin(queue, head),
        chain::flags_of(queue, entry).next(),
        before.len() + 1 == descriptor::chain_limit(queue.queue_size),
    ensures
        resumes::<E>(
            queue,
            work::counting(queue, head, before, payload),
            next_request(queue, head, before),
            entry,
            (queue, Step::Done(Err(QueueError::TooLong))),
        ),
{
    reveal(resumes);
    lemma_count_walk::<E>(queue, head, before, entry);
}

} // verus!
