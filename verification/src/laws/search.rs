//! Where a queue looks for work, and what it finds, stated on the bytes of guest
//! memory.

use crate::descriptor::ChainAt;
use crate::get_work::{NextWorkView, QueueCoreGetWork, QueueGetWorkInner};
use crate::laws::bits;
use crate::laws::bits::{bit_of, word16};
use crate::laws::guest;
use crate::layout::{EventSuppressionFlags, PackedDescriptor, PackedEventSuppresion};
use crate::memory::{Fence, Plain, QueueError, Region, Request, Step};
use crate::packed::PackedAvailable;
use crate::queue::QueueWorkView;
use crate::split::{SplitAvailable, SplitQueueGetWork};
use vstd::arithmetic::div_mod::lemma_mod_bound;
use vstd::prelude::*;

verus! {

/// The search after `n` accesses, number `from` and on, from `step` on.
#[verifier::opaque]
pub open spec fn searched_from<E>(
    queue: QueueCoreGetWork,
    step: Step<NextWorkView, Option<QueueWorkView>, E>,
    mem: spec_fn(int, Region) -> Seq<u8>,
    from: int,
    n: nat,
) -> (QueueCoreGetWork, Step<NextWorkView, Option<QueueWorkView>, E>) {
    guest::served(
        queue,
        step,
        |queue: QueueCoreGetWork, at: NextWorkView, reply: Result<Seq<u8>, E>|
            queue.next_work_resume(at, reply),
        mem,
        from,
        n,
    )
}

/// The requests of the `n` accesses.
#[verifier::opaque]
pub open spec fn search_asks_from<E>(
    queue: QueueCoreGetWork,
    step: Step<NextWorkView, Option<QueueWorkView>, E>,
    mem: spec_fn(int, Region) -> Seq<u8>,
    from: int,
    n: nat,
) -> Seq<Request> {
    guest::asked(
        queue,
        step,
        |queue: QueueCoreGetWork, at: NextWorkView, reply: Result<Seq<u8>, E>|
            queue.next_work_resume(at, reply),
        mem,
        from,
        n,
    )
}

/// The search after its first `n` accesses.
pub open spec fn searched<E>(
    queue: QueueCoreGetWork,
    mem: spec_fn(int, Region) -> Seq<u8>,
    n: nat,
) -> (QueueCoreGetWork, Step<NextWorkView, Option<QueueWorkView>, E>) {
    searched_from(queue, queue.next_work_start(), mem, 0, n)
}

/// The requests of its first `n` accesses.
pub open spec fn search_asks<E>(
    queue: QueueCoreGetWork,
    mem: spec_fn(int, Region) -> Seq<u8>,
    n: nat,
) -> Seq<Request> {
    search_asks_from::<E>(queue, queue.next_work_start(), mem, 0, n)
}

/// One more access of the search.
pub proof fn lemma_search_once<E>(
    queue: QueueCoreGetWork,
    step: Step<NextWorkView, Option<QueueWorkView>, E>,
    mem: spec_fn(int, Region) -> Seq<u8>,
    from: int,
    n: nat,
)
    ensures
        ({
            let before = searched_from(queue, step, mem, from, n);
            &&& searched_from(queue, step, mem, from, n + 1) == (match before.1 {
                Step::Wait { at, request } => before.0.next_work_resume(
                    at,
                    Ok(guest::fetched(mem, from + n, request)),
                ),
                Step::Done(_) => before,
            })
            &&& search_asks_from(queue, step, mem, from, n + 1) == (match before.1 {
                Step::Wait { at, request } => search_asks_from(queue, step, mem, from, n).push(
                    request,
                ),
                Step::Done(_) => search_asks_from(queue, step, mem, from, n),
            })
        }),
        n == 0 ==> {
            &&& searched_from(queue, step, mem, from, n) == (queue, step)
            &&& search_asks_from(queue, step, mem, from, n) == Seq::<Request>::empty()
        },
{
    let resume = |queue: QueueCoreGetWork, at: NextWorkView, reply: Result<Seq<u8>, E>|
        queue.next_work_resume(at, reply);
    reveal(searched_from);
    reveal(search_asks_from);
    guest::lemma_served_once(queue, step, resume, mem, from, n);
}

/// The search goes on from where it stands.
pub proof fn lemma_search_append<E>(
    queue: QueueCoreGetWork,
    step: Step<NextWorkView, Option<QueueWorkView>, E>,
    mem: spec_fn(int, Region) -> Seq<u8>,
    from: int,
    n: nat,
    more: nat,
)
    ensures
        searched_from(queue, step, mem, from, n + more) == ({
            let between = searched_from(queue, step, mem, from, n);
            searched_from(between.0, between.1, mem, from + n, more)
        }),
{
    let resume = |queue: QueueCoreGetWork, at: NextWorkView, reply: Result<Seq<u8>, E>|
        queue.next_work_resume(at, reply);
    reveal(searched_from);
    guest::lemma_served_append(queue, step, resume, mem, from, n, more);
}

/// A split queue that has taken one more piece of work, and is else the same.
pub open spec fn one_more_taken(
    queue: QueueCoreGetWork,
    split: SplitQueueGetWork,
) -> QueueCoreGetWork {
    QueueCoreGetWork {
        queue_size: queue.queue_size,
        features: queue.features,
        inner: QueueGetWorkInner::Split(
            SplitQueueGetWork {
                queue_size: split.queue_size,
                last_avail_index: ((split.last_avail_index + 1) % 0x1_0000) as u16,
                use_ring_event_index: split.use_ring_event_index,
            },
        ),
    }
}

/// The write by which a split queue asks to be told of new work, or not: of the
/// index up to which it has taken work, behind the used ring, if event indices
/// are in use, and of the flags of the used ring, if not.
pub open spec fn notification(split: SplitQueueGetWork, no_notify: bool) -> Request {
    if split.use_ring_event_index {
        Request::Write {
            region: Region::Used,
            offset: (4 + 8 * split.queue_size) as u64,
            value: Plain::U16(split.last_avail_index),
        }
    } else {
        Request::Write {
            region: Region::Used,
            offset: 0,
            value: Plain::U16(
                if no_notify {
                    1
                } else {
                    0
                },
            ),
        }
    }
}

/// The position of the available ring that a split queue takes work from next.
pub open spec fn position(split: SplitQueueGetWork) -> int {
    (split.last_avail_index + 1) % 0x1_0000 % (split.queue_size as int)
}

/// The read of the driver's index.
pub open spec fn read_index() -> Request {
    Request::Read { region: Region::Available, offset: 2, len: 2 }
}

/// The read of two bytes of the available ring at the given position, of two
/// bytes each from byte 4 on.
pub open spec fn read_element(position: int) -> Request {
    Request::Read { region: Region::Available, offset: (4 + 2 * position) as u64, len: 2 }
}

/// Where the driver's index, at byte 2 of the available ring, is another than
/// the one up to which a split queue has taken work, the queue takes one more
/// piece of work: the chain whose first descriptor the available ring names at
/// the next position, in the two bytes from byte 4 and twice the position on.
pub proof fn law_split_finds_work<E>(
    queue: QueueCoreGetWork,
    split: SplitQueueGetWork,
    mem: spec_fn(int, Region) -> Seq<u8>,
)
    requires
        split.queue_size == queue.queue_size > 0,
        queue.inner == QueueGetWorkInner::Split(split),
        mem(0, Region::Available).len() >= 4,
        mem(3, Region::Available).len() >= 4 + 2 * queue.queue_size,
        word16(mem(0, Region::Available), 2) != split.last_avail_index,
    ensures
        ({
            let taken = one_more_taken(queue, split);
            let head = word16(mem(3, Region::Available), 4 + 2 * position(split)) as u16;
            &&& searched::<E>(queue, mem, 4) == (taken, taken.enter_chain::<E>(head))
            &&& search_asks::<E>(queue, mem, 4) == seq![
                read_index(),
                notification(split, true),
                Request::Fence(Fence::Acquire),
                read_element(position(split)),
            ]
        }),
{
    let start = queue.next_work_start::<E>();
    lemma_search_once::<E>(queue, start, mem, 0, 0);
    lemma_search_once::<E>(queue, start, mem, 0, 1);
    lemma_search_once::<E>(queue, start, mem, 0, 2);
    lemma_search_once::<E>(queue, start, mem, 0, 3);
    let p = position(split);
    lemma_mod_bound((split.last_avail_index + 1) % 0x1_0000, queue.queue_size as int);
    let index = mem(0, Region::Available).subrange(2, 4);
    let element = mem(3, Region::Available).subrange(4 + 2 * p, 4 + 2 * p + 2);
    bits::law_numbers(index, 0, 0, 0);
    bits::law_numbers(element, 0, 0, 0);
}

/// Where the driver's index changes only after the queue has asked to be told of
/// new work, the queue finds the work as well.
#[verifier::rlimit(30)]
pub proof fn law_split_finds_late_work<E>(
    queue: QueueCoreGetWork,
    split: SplitQueueGetWork,
    mem: spec_fn(int, Region) -> Seq<u8>,
)
    requires
        split.queue_size == queue.queue_size > 0,
        queue.inner == QueueGetWorkInner::Split(split),
        mem(0, Region::Available).len() >= 4,
        mem(3, Region::Available).len() >= 4,
        mem(6, Region::Available).len() >= 4 + 2 * queue.queue_size,
        word16(mem(0, Region::Available), 2) == split.last_avail_index,
        word16(mem(3, Region::Available), 2) != split.last_avail_index,
    ensures
        ({
            let taken = one_more_taken(queue, split);
            let head = word16(mem(6, Region::Available), 4 + 2 * position(split)) as u16;
            &&& searched::<E>(queue, mem, 7) == (taken, taken.enter_chain::<E>(head))
            &&& search_asks::<E>(queue, mem, 7) == seq![
                read_index(),
                notification(split, false),
                Request::Fence(Fence::SeqCst),
                read_index(),
                notification(split, true),
                Request::Fence(Fence::Acquire),
                read_element(position(split)),
            ]
        }),
{
    let start = queue.next_work_start::<E>();
    lemma_search_once::<E>(queue, start, mem, 0, 0);
    lemma_search_once::<E>(queue, start, mem, 0, 1);
    lemma_search_once::<E>(queue, start, mem, 0, 2);
    lemma_search_once::<E>(queue, start, mem, 0, 3);
    lemma_search_once::<E>(queue, start, mem, 0, 4);
    lemma_search_once::<E>(queue, start, mem, 0, 5);
    lemma_search_once::<E>(queue, start, mem, 0, 6);
    let p = position(split);
    lemma_mod_bound((split.last_avail_index + 1) % 0x1_0000, queue.queue_size as int);
    let index = mem(0, Region::Available).subrange(2, 4);
    let again = mem(3, Region::Available).subrange(2, 4);
    let element = mem(6, Region::Available).subrange(4 + 2 * p, 4 + 2 * p + 2);
    bits::law_numbers(index, 0, 0, 0);
    bits::law_numbers(again, 0, 0, 0);
    bits::law_numbers(element, 0, 0, 0);
}

/// Where the driver's index is the one up to which a split queue has taken work,
/// also after the queue has asked to be told of new work, there is none, and the
/// queue is as it was.
pub proof fn law_split_finds_none<E>(
    queue: QueueCoreGetWork,
    split: SplitQueueGetWork,
    mem: spec_fn(int, Region) -> Seq<u8>,
)
    requires
        queue.inner == QueueGetWorkInner::Split(split),
        mem(0, Region::Available).len() >= 4,
        mem(3, Region::Available).len() >= 4,
        word16(mem(0, Region::Available), 2) == split.last_avail_index,
        word16(mem(3, Region::Available), 2) == split.last_avail_index,
    ensures
        searched::<E>(queue, mem, 4) == (
            queue,
            Step::<NextWorkView, Option<QueueWorkView>, E>::Done(Ok(None)),
        ),
        search_asks::<E>(queue, mem, 4) == seq![
            read_index(),
            notification(split, false),
            Request::Fence(Fence::SeqCst),
            read_index(),
        ],
{
    let start = queue.next_work_start::<E>();
    lemma_search_once::<E>(queue, start, mem, 0, 0);
    lemma_search_once::<E>(queue, start, mem, 0, 1);
    lemma_search_once::<E>(queue, start, mem, 0, 2);
    lemma_search_once::<E>(queue, start, mem, 0, 3);
    bits::law_numbers(mem(0, Region::Available).subrange(2, 4), 0, 0, 0);
    bits::law_numbers(mem(3, Region::Available).subrange(2, 4), 0, 0, 0);
}

/// The write by which a packed queue turns events off, or on.
pub open spec fn events(off: bool) -> Request {
    Request::Write {
        region: Region::DeviceEvent,
        offset: 0,
        value: Plain::U32(
            if off {
                0x1_0000
            } else {
                0
            },
        ),
    }
}

/// The read of the sixteen bytes of descriptor `i` of a region.
pub open spec fn read_slot(region: Region, i: int) -> Request {
    Request::Read { region, offset: (16 * i) as u64, len: 16 }
}

/// Whether the descriptor at position `i` of a ring of packed descriptors has
/// been made available in the lap of the wrap counter, and not used in it: bit 7
/// of its flags, which are its last two bytes, is the wrap counter, and bit 15
/// is not.
pub open spec fn published(ring: Seq<u8>, i: int, wrapped_bit: bool) -> bool {
    let flags = word16(ring, 16 * i + 14);
    bit_of(flags, 0x80) == wrapped_bit && bit_of(flags, 0x8000) != wrapped_bit
}

proof fn lemma_published(ring: Seq<u8>, i: int, wrapped_bit: bool)
    requires
        0 <= i,
        16 * i + 16 <= ring.len(),
    ensures
        crate::packed::ready(
            PackedDescriptor::of_bytes(ring.subrange(16 * i, 16 * i + 16)).flags,
            wrapped_bit,
        ) == published(ring, i, wrapped_bit),
{
    let slot = ring.subrange(16 * i, 16 * i + 16);
    bits::law_descriptor_fields(slot);
    bits::law_ready_bits(PackedDescriptor::of_bytes(slot).flags, wrapped_bit);
}

proof fn lemma_event_writes()
    ensures
        (PackedEventSuppresion { bits: 0 }).with_flags(EventSuppressionFlags::Disabled).bits
            == 0x1_0000,
        (PackedEventSuppresion { bits: 0 }).with_flags(EventSuppressionFlags::Enabled).bits == 0,
{
    let none = PackedEventSuppresion { bits: 0 };
    bits::law_event_suppression_bits(none, EventSuppressionFlags::Disabled);
    bits::law_event_suppression_bits(none, EventSuppressionFlags::Enabled);
}

/// Where the next descriptor of a packed queue has been published, whatever its
/// other flags are, the queue finds the chain that begins there.
pub proof fn law_packed_finds_work<E>(
    queue: QueueCoreGetWork,
    mem: spec_fn(int, Region) -> Seq<u8>,
)
    requires
        queue.inner is Packed,
        mem(2, Region::PackedRing).len() >= 16 * queue.inner->Packed_0.next_avail_index + 16,
        published(
            mem(2, Region::PackedRing),
            queue.inner->Packed_0.next_avail_index as int,
            queue.inner->Packed_0.wrapped_bit,
        ),
    ensures
        ({
            let i = queue.inner->Packed_0.next_avail_index;
            &&& searched::<E>(queue, mem, 3) == (queue, queue.enter_chain::<E>(i))
            &&& search_asks::<E>(queue, mem, 3) == seq![
                events(true),
                Request::Fence(Fence::Acquire),
                read_slot(Region::PackedRing, i as int),
            ]
        }),
{
    let start = queue.next_work_start::<E>();
    lemma_search_once::<E>(queue, start, mem, 0, 0);
    lemma_search_once::<E>(queue, start, mem, 0, 1);
    lemma_search_once::<E>(queue, start, mem, 0, 2);
    let i = queue.inner->Packed_0.next_avail_index as int;
    lemma_published(mem(2, Region::PackedRing), i, queue.inner->Packed_0.wrapped_bit);
    lemma_event_writes();
}

/// Where the next descriptor of a packed queue has not been published, the queue
/// turns events on and looks again. Where it has been published by then, the
/// search begins anew; else there is no work, and the queue is as it was.
pub proof fn law_packed_looks_again<E>(
    queue: QueueCoreGetWork,
    mem: spec_fn(int, Region) -> Seq<u8>,
)
    requires
        queue.inner is Packed,
        mem(2, Region::PackedRing).len() >= 16 * queue.inner->Packed_0.next_avail_index + 16,
        mem(5, Region::PackedRing).len() >= 16 * queue.inner->Packed_0.next_avail_index + 16,
        !published(
            mem(2, Region::PackedRing),
            queue.inner->Packed_0.next_avail_index as int,
            queue.inner->Packed_0.wrapped_bit,
        ),
    ensures
        ({
            let i = queue.inner->Packed_0.next_avail_index as int;
            &&& searched::<E>(queue, mem, 6) == (
                queue,
                if published(
                    mem(5, Region::PackedRing),
                    i,
                    queue.inner->Packed_0.wrapped_bit,
                ) {
                    queue.next_work_start::<E>()
                } else {
                    Step::<NextWorkView, Option<QueueWorkView>, E>::Done(Ok(None))
                },
            )
            &&& search_asks::<E>(queue, mem, 6) == seq![
                events(true),
                Request::Fence(Fence::Acquire),
                read_slot(Region::PackedRing, i),
                events(false),
                Request::Fence(Fence::SeqCst),
                read_slot(Region::PackedRing, i),
            ]
        }),
{
    let start = queue.next_work_start::<E>();
    lemma_search_once::<E>(queue, start, mem, 0, 0);
    lemma_search_once::<E>(queue, start, mem, 0, 1);
    lemma_search_once::<E>(queue, start, mem, 0, 2);
    lemma_search_once::<E>(queue, start, mem, 0, 3);
    lemma_search_once::<E>(queue, start, mem, 0, 4);
    lemma_search_once::<E>(queue, start, mem, 0, 5);
    let i = queue.inner->Packed_0.next_avail_index as int;
    lemma_published(mem(2, Region::PackedRing), i, queue.inner->Packed_0.wrapped_bit);
    lemma_published(mem(5, Region::PackedRing), i, queue.inner->Packed_0.wrapped_bit);
    lemma_event_writes();
}

/// What the search takes as a reply: two bytes for an index or an element of the
/// available ring, sixteen for a descriptor, any reply to a write, and no error
/// for a fence. A failed read it takes always.
pub proof fn law_search_accepts<E>(queue: QueueCoreGetWork, at: NextWorkView, data: Seq<u8>, e: E)
    requires
        queue.waits_at(at),
    ensures
        queue.answers::<E>(at, Ok(data)) <==> (match at {
            NextWorkView::Split(SplitAvailable::Index) => data.len() == 2,
            NextWorkView::Split(SplitAvailable::IndexAgain) => data.len() == 2,
            NextWorkView::Element { index } => data.len() == 2,
            NextWorkView::Packed(PackedAvailable::Descriptor) => data.len() == 16,
            NextWorkView::Packed(PackedAvailable::DescriptorAgain) => data.len() == 16,
            NextWorkView::Payload { head, reader, at, payload } => match at {
                ChainAt::Table { address, length } => address + length < 0x1_0000_0000_0000_0000,
                _ => data.len() == 16 && reader.chain.queue_size > 0,
            },
            NextWorkView::Count { head, chain, payload } => data.len() == 16,
            _ => true,
        }),
        queue.answers::<E>(at, Err(e)) <==> (match at {
            NextWorkView::Split(SplitAvailable::RearmFence) => false,
            NextWorkView::Split(SplitAvailable::SuppressFence) => false,
            NextWorkView::Packed(PackedAvailable::DisableFence) => false,
            NextWorkView::Packed(PackedAvailable::EnableFence) => false,
            _ => true,
        }),
{
}

/// A split queue has taken a piece of work once the last fence before the
/// available ring is read is over, and a packed queue once it hands the work out.
/// Any other reply leaves the queue as it was.
pub proof fn law_search_keeps_queue<E>(
    queue: QueueCoreGetWork,
    at: NextWorkView,
    reply: Result<Seq<u8>, E>,
)
    requires
        queue.waits_at(at),
    ensures
        ({
            let (after, step) = queue.next_work_resume(at, reply);
            after == (if at == NextWorkView::Split(SplitAvailable::SuppressFence) && reply is Ok {
                one_more_taken(queue, queue.inner->Split_0)
            } else if at is Count && step matches Step::Done(Ok(Some(_))) {
                after
            } else {
                queue
            })
        }),
{
}

/// A failed access ends the search with the error of guest memory, wherever it
/// waits, and the queue stays as it was before the access.
pub proof fn law_search_fails<E>(queue: QueueCoreGetWork, at: NextWorkView, e: E)
    requires
        queue.waits_at(at),
    ensures
        queue.next_work_resume(at, Err(e)) == (
            queue,
            Step::<NextWorkView, Option<QueueWorkView>, E>::Done(Err(QueueError::Memory(e))),
        ),
{
}

} // verus!
