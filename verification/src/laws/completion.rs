//! What completing a piece of work does to guest memory, and when the driver is
//! told, stated on the bytes of guest memory.

use crate::complete_work::{Completion, QueueCompleteWorkInner, QueueCoreCompleteWork};
use crate::laws::bits;
use crate::laws::bits::{bit_of, word16, word32};
use crate::laws::guest;
use crate::layout::{
    AvailableFlags, DescriptorFlags, PackedDescriptor, PackedEventSuppresion, UsedElement,
};
use crate::memory::{Fence, Plain, QueueError, Region, Request, Step};
use crate::packed::{PackedCompletion, PackedQueueCompleteWork, PackedQueueCompletionContext};
use crate::queue::QueueCompletionContext;
use crate::split::{SplitCompletion, SplitQueueCompleteWork, SplitQueueCompletionContext};
use vstd::prelude::*;

verus! {

/// The completion after `n` accesses.
pub open spec fn completed<E>(
    queue: QueueCoreCompleteWork,
    context: QueueCompletionContext,
    bytes_written: u32,
    mem: spec_fn(int, Region) -> Seq<u8>,
    n: nat,
) -> (QueueCoreCompleteWork, Step<Completion, bool, E>) {
    guest::served(
        queue,
        queue.complete_start::<E>(context, bytes_written),
        |queue: QueueCoreCompleteWork, at: Completion, reply: Result<Seq<u8>, E>|
            queue.complete_resume(context, bytes_written, at, reply),
        mem,
        0,
        n,
    )
}

/// The requests of the first `n` accesses of the completion.
pub open spec fn completion_asks<E>(
    queue: QueueCoreCompleteWork,
    context: QueueCompletionContext,
    bytes_written: u32,
    mem: spec_fn(int, Region) -> Seq<u8>,
    n: nat,
) -> Seq<Request> {
    guest::asked(
        queue,
        queue.complete_start::<E>(context, bytes_written),
        |queue: QueueCoreCompleteWork, at: Completion, reply: Result<Seq<u8>, E>|
            queue.complete_resume(context, bytes_written, at, reply),
        mem,
        0,
        n,
    )
}

/// Completing work on a split queue with the device's index `i`: the index of its
/// first descriptor, and the number of bytes written, go to element `i` around
/// the used ring, which has eight bytes and begins at byte 4; then `i + 1` goes
/// to byte 2. The driver is told exactly where the 16-bit number behind the
/// available ring is `i`, if event indices are in use, and where bit 0 of the
/// flags of the available ring is clear, if not.
pub proof fn law_split_completion<E>(
    queue: SplitQueueCompleteWork,
    context: SplitQueueCompletionContext,
    bytes_written: u32,
    mem: spec_fn(int, Region) -> Seq<u8>,
)
    requires
        queue.wf(),
        mem(4, Region::Available).len() >= 6 + 2 * queue.queue_size,
    ensures
        ({
            let core = QueueCoreCompleteWork { inner: QueueCompleteWorkInner::Split(queue) };
            let work = QueueCompletionContext::Split(context);
            let size = queue.queue_size as int;
            let i = queue.last_used_index as int;
            let read = mem(4, Region::Available);
            let event_at = if queue.use_ring_event_index {
                4 + 2 * size
            } else {
                0
            };
            &&& completion_asks::<E>(core, work, bytes_written, mem, 5) == seq![
                Request::Write {
                    region: Region::Used,
                    offset: (4 + 8 * (i % size)) as u64,
                    value: Plain::UsedElement(
                        UsedElement { id: context.descriptor_index as u32, len: bytes_written },
                    ),
                },
                Request::Fence(Fence::Release),
                Request::Write {
                    region: Region::Used,
                    offset: 2,
                    value: Plain::U16(((i + 1) % 0x1_0000) as u16),
                },
                Request::Fence(Fence::SeqCst),
                Request::Read { region: Region::Available, offset: event_at as u64, len: 2 },
            ]
            &&& completed::<E>(core, work, bytes_written, mem, 5) == (
                QueueCoreCompleteWork {
                    inner: QueueCompleteWorkInner::Split(
                        SplitQueueCompleteWork {
                            queue_size: queue.queue_size,
                            last_used_index: ((i + 1) % 0x1_0000) as u16,
                            use_ring_event_index: queue.use_ring_event_index,
                        },
                    ),
                },
                Step::<Completion, bool, E>::Done(
                    Ok(
                        if queue.use_ring_event_index {
                            word16(read, 4 + 2 * size) == i
                        } else {
                            !bit_of(word16(read, 0), 1)
                        },
                    ),
                ),
            )
        }),
{
    let core = QueueCoreCompleteWork { inner: QueueCompleteWorkInner::Split(queue) };
    let work = QueueCompletionContext::Split(context);
    let resume = |queue: QueueCoreCompleteWork, at: Completion, reply: Result<Seq<u8>, E>|
        queue.complete_resume(work, bytes_written, at, reply);
    let start = core.complete_start::<E>(work, bytes_written);
    guest::lemma_served_once(core, start, resume, mem, 0, 0);
    guest::lemma_served_once(core, start, resume, mem, 0, 1);
    guest::lemma_served_once(core, start, resume, mem, 0, 2);
    guest::lemma_served_once(core, start, resume, mem, 0, 3);
    guest::lemma_served_once(core, start, resume, mem, 0, 4);
    let at = if queue.use_ring_event_index {
        4 + 2 * queue.queue_size
    } else {
        0
    };
    let data = mem(4, Region::Available).subrange(at, at + 2);
    bits::law_numbers(data, 0, 0, 0);
    bits::law_ring_flag_bits(AvailableFlags { bits: word16(data, 0) as u16 }, true);
}

/// Completing work on a packed queue that stands at the position `i`: the used
/// descriptor goes to the sixteen bytes from `16 * i` on, with the identifier of
/// the work, the number of bytes written, and both lap bits as the wrap counter.
/// The driver is told as its event suppression structure says: never where its
/// flags are 1; where they are 2, and event indices are in use, exactly where it
/// names the position `i` and the wrap counter; always else.
pub proof fn law_packed_completion<E>(
    queue: PackedQueueCompleteWork,
    context: PackedQueueCompletionContext,
    bytes_written: u32,
    mem: spec_fn(int, Region) -> Seq<u8>,
)
    requires
        queue.wf(),
        mem(2, Region::DriverEvent).len() >= 4,
    ensures
        ({
            let core = QueueCoreCompleteWork { inner: QueueCompleteWorkInner::Packed(queue) };
            let work = QueueCompletionContext::Packed(context);
            let size = queue.queue_size as int;
            let i = queue.next_index as int;
            let event = word32(mem(2, Region::DriverEvent), 0);
            let next = (i + context.descriptor_count) % size;
            let signal = if event / 0x1_0000 % 4 == 1 {
                false
            } else if event / 0x1_0000 % 4 == 2 && queue.use_event_index {
                event % 0x8000 == i && bit_of(event, 0x8000) == queue.wrapped_bit
            } else {
                true
            };
            &&& completion_asks::<E>(core, work, bytes_written, mem, 3) == seq![
                Request::Write {
                    region: Region::PackedRing,
                    offset: (16 * i) as u64,
                    value: Plain::PackedDescriptor(
                        PackedDescriptor {
                            address: 0,
                            length: bytes_written,
                            buffer_id: context.buffer_id,
                            flags: DescriptorFlags {
                                bits: if queue.wrapped_bit {
                                    0x8080
                                } else {
                                    0
                                },
                            },
                        },
                    ),
                },
                Request::Fence(Fence::SeqCst),
                Request::Read { region: Region::DriverEvent, offset: 0, len: 4 },
            ]
            &&& completed::<E>(core, work, bytes_written, mem, 3) == (
                QueueCoreCompleteWork {
                    inner: QueueCompleteWorkInner::Packed(
                        PackedQueueCompleteWork {
                            queue_size: queue.queue_size,
                            next_index: next as u16,
                            wrapped_bit: if next < i {
                                !queue.wrapped_bit
                            } else {
                                queue.wrapped_bit
                            },
                            use_event_index: queue.use_event_index,
                        },
                    ),
                },
                Step::<Completion, bool, E>::Done(Ok(signal)),
            )
        }),
{
    let core = QueueCoreCompleteWork { inner: QueueCompleteWorkInner::Packed(queue) };
    let work = QueueCompletionContext::Packed(context);
    let resume = |queue: QueueCoreCompleteWork, at: Completion, reply: Result<Seq<u8>, E>|
        queue.complete_resume(work, bytes_written, at, reply);
    let start = core.complete_start::<E>(work, bytes_written);
    guest::lemma_served_once(core, start, resume, mem, 0, 0);
    guest::lemma_served_once(core, start, resume, mem, 0, 1);
    guest::lemma_served_once(core, start, resume, mem, 0, 2);
    let data = mem(2, Region::DriverEvent).subrange(0, 4);
    bits::law_numbers(data, 0, 0, 0);
    assert(word32(data, 0) == word32(mem(2, Region::DriverEvent), 0));
    let event = PackedEventSuppresion { bits: word32(data, 0) as u32 };
    bits::law_event_suppression_bits(event, event.flags());
    let none = DescriptorFlags { bits: 0 };
    bits::law_set_lap_bits(none, queue.wrapped_bit);
    bits::law_set_lap_bits(none.with_available(queue.wrapped_bit), queue.wrapped_bit);
    vstd::arithmetic::div_mod::lemma_mod_bound(
        queue.next_index + context.descriptor_count,
        queue.queue_size as int,
    );
}

/// The next descriptor that a packed queue uses is signalled to a driver that
/// names its position and its wrap counter, in either lap, and to no driver that
/// names another position or the other counter.
pub proof fn law_named_descriptor_is_signalled<E>(
    queue: PackedQueueCompleteWork,
    context: PackedQueueCompletionContext,
    bytes_written: u32,
    mem: spec_fn(int, Region) -> Seq<u8>,
    position: int,
    counter: bool,
)
    requires
        queue.wf(),
        queue.use_event_index,
        mem(2, Region::DriverEvent).len() >= 4,
        0 <= position < 0x8000,
        word32(mem(2, Region::DriverEvent), 0) == position + bits::weight_if(counter, 0x8000)
            + 2 * 0x1_0000,
    ensures
        ({
            let core = QueueCoreCompleteWork { inner: QueueCompleteWorkInner::Packed(queue) };
            let work = QueueCompletionContext::Packed(context);
            let (after, step) = completed::<E>(core, work, bytes_written, mem, 3);
            step == Step::<Completion, bool, E>::Done(
                Ok(position == queue.next_index && counter == queue.wrapped_bit),
            )
        }),
{
    law_packed_completion::<E>(queue, context, bytes_written, mem);
}

/// A failed access ends a completion with the error of guest memory, wherever it
/// waits, and the queue stays as it was before the access.
pub proof fn law_completion_fails<E>(
    queue: QueueCoreCompleteWork,
    context: QueueCompletionContext,
    bytes_written: u32,
    at: Completion,
    e: E,
)
    requires
        queue.waits_at(at),
    ensures
        queue.complete_resume(context, bytes_written, at, Err(e)) == (
            queue,
            Step::<Completion, bool, E>::Done(Err(QueueError::Memory(e))),
        ),
{
}

/// What a completion can go on with: any reply, but for the one that ends the
/// completion on a packed queue, which moves the queue on by as many descriptors
/// as the work had, within 16 bits.
pub proof fn law_completion_advances<E>(
    queue: QueueCoreCompleteWork,
    context: QueueCompletionContext,
    at: Completion,
    data: Seq<u8>,
    e: E,
)
    ensures
        queue.can_advance::<E>(context, at, Ok(data)) <==> (match at {
            Completion::Packed(PackedCompletion::Interest) => {
                &&& queue.inner->Packed_0.queue_size > 0
                &&& queue.inner->Packed_0.next_index + context->Packed_0.descriptor_count
                    < 0x1_0000
            },
            _ => true,
        }),
        queue.can_advance::<E>(context, at, Err(e)),
{
}

/// A completion on a split queue counts once its element has been written, and
/// one on a packed queue moves on once it is known whether the driver is to be
/// told. Until then, and where an access fails, the queue is as it was.
pub proof fn law_completion_keeps_queue<E>(
    queue: QueueCoreCompleteWork,
    context: QueueCompletionContext,
    bytes_written: u32,
    at: Completion,
    data: Seq<u8>,
    e: E,
)
    requires
        queue.waits_at(at),
    ensures
        queue.complete_resume(context, bytes_written, at, Err(e)).0 == queue,
        ({
            let (after, step) = queue.complete_resume::<E>(context, bytes_written, at, Ok(data));
            match at {
                Completion::Split(SplitCompletion::Element) => {
                    let split = queue.inner->Split_0;
                    after.inner == QueueCompleteWorkInner::Split(
                        SplitQueueCompleteWork {
                            queue_size: split.queue_size,
                            last_used_index: ((split.last_used_index + 1) % 0x1_0000) as u16,
                            use_ring_event_index: split.use_ring_event_index,
                        },
                    )
                },
                Completion::Packed(PackedCompletion::Interest) => step is Done,
                _ => after == queue,
            }
        }),
{
}

/// The driver of a split queue is told of the completion with the number `n`, in
/// whatever state the queue is: exactly where the two bytes behind the available
/// ring are `n`, if event indices are in use, and exactly where bit 0 of its flags
/// is clear, if not.
pub proof fn law_split_signal<E>(
    queue: SplitQueueCompleteWork,
    context: SplitQueueCompletionContext,
    bytes_written: u32,
    n: u16,
    data: Seq<u8>,
)
    requires
        data.len() == 2,
    ensures
        queue.complete_resume::<E>(
            context,
            bytes_written,
            (SplitCompletion::Interest { completed: n }),
            Ok(data),
        ) == (
            queue,
            Step::<SplitCompletion, bool, E>::Done(
                Ok(
                    if queue.use_ring_event_index {
                        word16(data, 0) == n
                    } else {
                        !bit_of(word16(data, 0), 1)
                    },
                ),
            ),
        ),
{
    bits::law_numbers(data, 0, 0, 0);
    bits::law_ring_flag_bits(AvailableFlags { bits: word16(data, 0) as u16 }, true);
}

/// The driver of a packed queue is told, or not, as the four bytes of its event
/// suppression structure say, in whatever state the queue is.
pub proof fn law_packed_signal<E>(
    queue: PackedQueueCompleteWork,
    context: PackedQueueCompletionContext,
    bytes_written: u32,
    data: Seq<u8>,
)
    requires
        data.len() == 4,
    ensures
        ({
            let event = word32(data, 0);
            let signal = if event / 0x1_0000 % 4 == 1 {
                false
            } else if event / 0x1_0000 % 4 == 2 && queue.use_event_index {
                event % 0x8000 == queue.next_index && bit_of(event, 0x8000) == queue.wrapped_bit
            } else {
                true
            };
            let (after, step) = queue.complete_resume::<E>(
                context,
                bytes_written,
                PackedCompletion::Interest,
                Ok(data),
            );
            step == Step::<PackedCompletion, bool, E>::Done(Ok(signal))
        }),
{
    bits::law_numbers(data, 0, 0, 0);
    let event = PackedEventSuppresion { bits: word32(data, 0) as u32 };
    bits::law_event_suppression_bits(event, event.flags());
}

} // verus!
