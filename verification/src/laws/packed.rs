//! Laws on packed queues.

use crate::layout::{
    DescriptorFlags, EventSuppressionFlags, PackedDescriptor, PackedEventSuppresion,
    DESCRIPTOR_SIZE, EVENT_SUPPRESSION_SIZE,
};
use crate::le;
use crate::memory;
use crate::memory::{Fence, Plain, QueueError, Region, Request, Step};
use crate::packed;
use crate::packed::{
    PackedAvailable, PackedCompletion, PackedQueueCompleteWork, PackedQueueCompletionContext,
    PackedQueueGetWork,
};
use vstd::arithmetic::div_mod::{
    lemma_fundamental_div_mod, lemma_fundamental_div_mod_converse, lemma_mod_bound, lemma_small_mod,
};
use vstd::prelude::*;

verus! {

/// Where the next descriptor is ready, the search turns events off and finds
/// it.
pub proof fn law_available_at_once<E>(
    queue: PackedQueueGetWork,
    descriptor: Seq<u8>,
    done: Seq<Seq<u8>>,
)
    requires
        packed::ready(PackedDescriptor::of_bytes(descriptor).flags, queue.wrapped_bit),
    ensures
        ({
            let replies = seq![Ok::<Seq<u8>, E>(done[0]), Ok(done[1]), Ok(descriptor)];
            &&& queue.is_available_run(replies) == Step::<PackedAvailable, Option<u16>, E>::Done(
                Ok(Some(queue.next_avail_index)),
            )
            &&& queue.is_available_requests(replies) == seq![
                queue.events_request(EventSuppressionFlags::Disabled),
                Request::Fence(Fence::Acquire),
                queue.request_at(PackedAvailable::Descriptor),
            ]
        }),
{
    let replies = seq![Ok::<Seq<u8>, E>(done[0]), Ok(done[1]), Ok(descriptor)];
    let resume = |queue: PackedQueueGetWork, at: PackedAvailable, reply: Result<Seq<u8>, E>|
        (queue, queue.is_available_resume(at, reply));
    let first = queue.wait::<E>(PackedAvailable::Disable);
    memory::lemma_run_take(queue, first, resume, replies, 0);
    memory::lemma_run_take(queue, first, resume, replies, 1);
    memory::lemma_run_take(queue, first, resume, replies, 2);
}

/// Where the next descriptor is not ready, the search turns events on, and
/// looks again before it gives up. Where the descriptor is ready by then, the
/// search begins anew.
pub proof fn law_looks_again<E>(
    queue: PackedQueueGetWork,
    descriptor: Seq<u8>,
    again: Seq<u8>,
    done: Seq<Seq<u8>>,
)
    requires
        !packed::ready(PackedDescriptor::of_bytes(descriptor).flags, queue.wrapped_bit),
    ensures
        ({
            let replies = seq![
                Ok::<Seq<u8>, E>(done[0]),
                Ok(done[1]),
                Ok(descriptor),
                Ok(done[2]),
                Ok(done[3]),
                Ok(again),
            ];
            let made = seq![
                queue.events_request(EventSuppressionFlags::Disabled),
                Request::Fence(Fence::Acquire),
                queue.request_at(PackedAvailable::Descriptor),
                queue.events_request(EventSuppressionFlags::Enabled),
                Request::Fence(Fence::SeqCst),
                queue.request_at(PackedAvailable::Descriptor),
            ];
            if packed::ready(PackedDescriptor::of_bytes(again).flags, queue.wrapped_bit) {
                &&& queue.is_available_run(replies) == queue.wait::<E>(PackedAvailable::Disable)
                &&& queue.is_available_requests(replies) == made.push(
                    queue.request_at(PackedAvailable::Disable),
                )
            } else {
                &&& queue.is_available_run(replies) == Step::<
                    PackedAvailable,
                    Option<u16>,
                    E,
                >::Done(Ok(None))
                &&& queue.is_available_requests(replies) == made
            }
        }),
{
    let replies = seq![
        Ok::<Seq<u8>, E>(done[0]),
        Ok(done[1]),
        Ok(descriptor),
        Ok(done[2]),
        Ok(done[3]),
        Ok(again),
    ];
    let resume = |queue: PackedQueueGetWork, at: PackedAvailable, reply: Result<Seq<u8>, E>|
        (queue, queue.is_available_resume(at, reply));
    let first = queue.wait::<E>(PackedAvailable::Disable);
    memory::lemma_run_take(queue, first, resume, replies, 0);
    memory::lemma_run_take(queue, first, resume, replies, 1);
    memory::lemma_run_take(queue, first, resume, replies, 2);
    memory::lemma_run_take(queue, first, resume, replies, 3);
    memory::lemma_run_take(queue, first, resume, replies, 4);
    memory::lemma_run_take(queue, first, resume, replies, 5);
}

/// A completion writes the used descriptor, and only then reads whether the
/// driver is to be told. Then the queue moves on by as many descriptors as the
/// work had.
pub proof fn law_completion<E>(
    queue: PackedQueueCompleteWork,
    context: PackedQueueCompletionContext,
    bytes_written: u32,
    done: Seq<Seq<u8>>,
    interest: Seq<u8>,
)
    ensures
        ({
            let replies = seq![Ok::<Seq<u8>, E>(done[0]), Ok(done[1]), Ok(interest)];
            &&& queue.complete_run(context, bytes_written, replies) == (
                queue.completed(context.descriptor_count),
                Step::<PackedCompletion, bool, E>::Done(
                    Ok(queue.signals(PackedEventSuppresion { bits: le::le_u32(interest) })),
                ),
            )
            &&& queue.complete_requests(context, bytes_written, replies) == seq![
                queue.request_at(context, bytes_written, PackedCompletion::Descriptor),
                Request::Fence(Fence::SeqCst),
                queue.request_at(context, bytes_written, PackedCompletion::Interest),
            ]
        }),
{
    let replies = seq![Ok::<Seq<u8>, E>(done[0]), Ok(done[1]), Ok(interest)];
    let resume = |queue: PackedQueueCompleteWork, at: PackedCompletion, reply: Result<Seq<u8>, E>|
        queue.complete_resume(context, bytes_written, at, reply);
    let first = queue.complete_start::<E>(context, bytes_written);
    memory::lemma_run_take(queue, first, resume, replies, 0);
    memory::lemma_run_take(queue, first, resume, replies, 1);
    memory::lemma_run_take(queue, first, resume, replies, 2);
}

/// The ring position and the wrap counter after `total` descriptors since the
/// queue was made: the position goes around the ring, and the counter, set in
/// the first lap, changes with every lap.
pub open spec fn lap_position(queue_size: u16, total: nat) -> (u16, bool) {
    ((total as int % queue_size as int) as u16, (total as int / queue_size as int) % 2 == 0)
}

/// A queue that moves on by fewer descriptors than the ring has keeps its place
/// in the laps. (Moving on by exactly as many as the ring has brings the
/// position back to where it was, and the counter is then not changed.)
pub proof fn law_keeps_laps(queue_size: u16, total: nat, count: u16)
    requires
        count < queue_size,
    ensures
        ({
            let (index, bit) = lap_position(queue_size, total);
            packed::advanced(queue_size, index, count, index, bit) == lap_position(
                queue_size,
                total + count as nat,
            )
        }),
{
    let size = queue_size as int;
    let lap = total as int / size;
    let index = total as int % size;
    lemma_fundamental_div_mod(total as int, size);
    lemma_mod_bound(total as int, size);
    let sum = index + count;
    assert(size * lap == lap * size) by (nonlinear_arith);
    if sum < size {
        lemma_small_mod(sum as nat, size as nat);
        lemma_fundamental_div_mod_converse(total + count, size, lap, sum);
    } else {
        lemma_fundamental_div_mod_converse(sum, size, 1, sum - size);
        assert(size * lap + size == (lap + 1) * size) by (nonlinear_arith);
        lemma_fundamental_div_mod_converse(total + count, size, lap + 1, sum - size);
    }
}

/// Whether the two halves of a packed queue stand at one position in one lap.
pub open spec fn in_step(
    get_work: PackedQueueGetWork,
    complete_work: PackedQueueCompleteWork,
) -> bool {
    &&& get_work.queue_size == complete_work.queue_size
    &&& get_work.next_avail_index == complete_work.next_index
    &&& get_work.wrapped_bit == complete_work.wrapped_bit
}

/// The two halves of a packed queue keep in step: where both stand at one
/// position in one lap, taking a piece of work moves the one as completing it
/// moves the other.
pub proof fn law_halves_in_step(
    get_work: PackedQueueGetWork,
    complete_work: PackedQueueCompleteWork,
    count: u16,
)
    requires
        in_step(get_work, complete_work),
    ensures
        in_step(
            get_work.consumed(get_work.next_avail_index, count),
            complete_work.completed(count),
        ),
{
}

/// A queue after pieces of work with the given numbers of descriptors have been
/// taken in order.
pub open spec fn taken_all(queue: PackedQueueGetWork, counts: Seq<u16>) -> PackedQueueGetWork
    decreases counts.len(),
{
    if counts.len() == 0 {
        queue
    } else {
        let before = taken_all(queue, counts.drop_last());
        before.consumed(before.next_avail_index, counts.last())
    }
}

/// A queue after pieces of work with the given numbers of descriptors have been
/// completed in order.
pub open spec fn completed_all(
    queue: PackedQueueCompleteWork,
    counts: Seq<u16>,
) -> PackedQueueCompleteWork
    decreases counts.len(),
{
    if counts.len() == 0 {
        queue
    } else {
        completed_all(queue, counts.drop_last()).completed(counts.last())
    }
}

/// Work is completed where it was taken from: once the given pieces of work,
/// which were taken in this order, have been completed in the same order, the
/// next used descriptor is written at the ring position that the next piece of
/// work was taken from, with the wrap counter that it had there. How many pieces
/// have been taken in the meantime does not matter.
pub proof fn law_completed_where_taken(
    get_work: PackedQueueGetWork,
    complete_work: PackedQueueCompleteWork,
    counts: Seq<u16>,
    context: PackedQueueCompletionContext,
    bytes_written: u32,
)
    requires
        in_step(get_work, complete_work),
    ensures
        ({
            let taken = taken_all(get_work, counts);
            let completed = completed_all(complete_work, counts);
            &&& in_step(taken, completed)
            &&& completed.request_at(context, bytes_written, PackedCompletion::Descriptor) == (
            Request::Write {
                region: Region::PackedRing,
                offset: (DESCRIPTOR_SIZE * taken.next_avail_index) as u64,
                value: Plain::PackedDescriptor(
                    PackedDescriptor {
                        address: 0,
                        length: bytes_written,
                        buffer_id: context.buffer_id,
                        flags: DescriptorFlags { bits: 0 }.with_available(
                            taken.wrapped_bit,
                        ).with_used(taken.wrapped_bit),
                    },
                ),
            })
        }),
    decreases counts.len(),
{
    if counts.len() > 0 {
        law_completed_where_taken(
            get_work,
            complete_work,
            counts.drop_last(),
            context,
            bytes_written,
        );
    }
}

/// A failed access ends the search, or the completion, with the error of guest
/// memory, and the queue stays as it was.
pub proof fn law_packed_access_fails<E>(
    get_work: PackedQueueGetWork,
    complete_work: PackedQueueCompleteWork,
    context: PackedQueueCompletionContext,
    bytes_written: u32,
    available: PackedAvailable,
    completion: PackedCompletion,
    e: E,
)
    ensures
        get_work.is_available_resume(available, Err(e)) == Step::<
            PackedAvailable,
            Option<u16>,
            E,
        >::Done(Err(QueueError::Memory(e))),
        complete_work.complete_resume(context, bytes_written, completion, Err(e)) == (
            complete_work,
            Step::<PackedCompletion, bool, E>::Done(Err(QueueError::Memory(e))),
        ),
{
}

/// Every access of the search lies in the ring and in the event suppression
/// structure as they were taken when the queue was made.
pub proof fn law_search_stays_in_ring(queue: PackedQueueGetWork, at: PackedAvailable)
    requires
        queue.wf(),
    ensures
        ({
            let request = queue.request_at(at);
            ||| request is Fence
            ||| memory::within(
                request,
                Region::PackedRing,
                (DESCRIPTOR_SIZE * queue.queue_size) as u64,
            )
            ||| memory::within(request, Region::DeviceEvent, EVENT_SUPPRESSION_SIZE)
        }),
{
}

/// Every access of a completion lies in the ring and in the event suppression
/// structure as they were taken when the queue was made.
pub proof fn law_completion_stays_in_ring(
    queue: PackedQueueCompleteWork,
    context: PackedQueueCompletionContext,
    bytes_written: u32,
    at: PackedCompletion,
)
    requires
        queue.wf(),
    ensures
        ({
            let request = queue.request_at(context, bytes_written, at);
            ||| request is Fence
            ||| memory::within(
                request,
                Region::PackedRing,
                (DESCRIPTOR_SIZE * queue.queue_size) as u64,
            )
            ||| memory::within(request, Region::DriverEvent, EVENT_SUPPRESSION_SIZE)
        }),
{
}

/// Taking descriptors moves the queue on to the position behind them, around the
/// ring, and changes the wrap counter exactly where that position lies before the
/// one at which the queue stood. Nothing else changes.
pub proof fn law_consumes(queue: PackedQueueGetWork, wrapped_index: u16, count: u16)
    requires
        queue.queue_size > 0,
    ensures
        ({
            let next = (wrapped_index + count) % queue.queue_size as int;
            queue.consumed(wrapped_index, count) == (PackedQueueGetWork {
                queue_size: queue.queue_size,
                next_avail_index: next as u16,
                _use_event_index: queue._use_event_index,
                wrapped_bit: if next < queue.next_avail_index {
                    !queue.wrapped_bit
                } else {
                    queue.wrapped_bit
                },
            })
        }),
{
    lemma_mod_bound(wrapped_index + count, queue.queue_size as int);
}

} // verus!
