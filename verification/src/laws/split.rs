//! Laws on split queues.

use crate::layout::{UsedElement, UsedFlags, USED_ELEMENT_SIZE, USED_OFFSET_RING};
use crate::le;
use crate::memory;
use crate::memory::{Fence, Plain, QueueError, Region, Request, Step};
use crate::split::{available_len, used_len};
use crate::split::{
    SplitAvailable, SplitCompletion, SplitQueueCompleteWork, SplitQueueCompletionContext,
    SplitQueueGetWork,
};
use vstd::arithmetic::div_mod::{
    lemma_add_mod_noop_right, lemma_fundamental_div_mod, lemma_mod_bound, lemma_mod_mod,
    lemma_mod_multiples_basic,
};
use vstd::arithmetic::power2::is_pow2;
use vstd::prelude::*;

verus! {

proof fn lemma_pow2_divides(small: int, large: int) -> (quotient: int)
    requires
        is_pow2(small),
        is_pow2(large),
        small <= large,
    ensures
        large == quotient * small,
    decreases small,
{
    reveal(is_pow2);
    if small == 1 {
        large
    } else {
        let quotient = lemma_pow2_divides(small / 2, large / 2);
        assert(large == quotient * small) by (nonlinear_arith)
            requires
                large / 2 == quotient * (small / 2),
                large % 2 == 0,
                small % 2 == 0,
        ;
        quotient
    }
}

/// The index after `index`, modulo a queue size, follows `index` modulo it.
pub proof fn lemma_index_wraps_in_step(index: u16, size: u16)
    requires
        is_pow2(size as int),
    ensures
        ((index + 1) % 0x1_0000) % (size as int) == (index as int % size as int + 1) % (
        size as int),
{
    reveal(is_pow2);
    assert(is_pow2(0x1_0000)) by {
        reveal_with_fuel(is_pow2, 18);
    }
    let quotient = lemma_pow2_divides(size as int, 0x1_0000);
    lemma_add_mod_noop_right(1, index as int, size as int);
    if index == u16::MAX {
        lemma_mod_multiples_basic(quotient, size as int);
        assert(0int % size as int == 0) by (nonlinear_arith)
            requires
                size > 0,
        ;
    }
}

/// Work is taken from the ring in order: where the size is a power of 2, the
/// position that is taken next follows the one that was taken last, around the
/// ring, also where the index runs over.
pub proof fn law_taken_in_ring_order(queue: SplitQueueGetWork)
    requires
        is_pow2(queue.queue_size as int),
    ensures
        ({
            let size = queue.queue_size as int;
            queue.taken().last_avail_index as int % size == (queue.last_avail_index as int % size
                + 1) % size
        }),
{
    lemma_index_wraps_in_step(queue.last_avail_index, queue.queue_size);
}

proof fn lemma_index_of_count(n: nat, size: u16)
    requires
        is_pow2(size as int),
    ensures
        (n as int % 0x1_0000) % (size as int) == n as int % size as int,
{
    reveal(is_pow2);
    assert(is_pow2(0x1_0000)) by {
        reveal_with_fuel(is_pow2, 18);
    }
    let quotient = lemma_pow2_divides(size as int, 0x1_0000);
    assert(quotient * size == size * quotient) by (nonlinear_arith);
    assert(quotient > 0) by (nonlinear_arith)
        requires
            quotient * size == 0x1_0000,
            size > 0,
    ;
    lemma_mod_mod(n as int, size as int, quotient);
}

/// Once `n` pieces of work have been taken from a ring, the next one is taken
/// from the position `n + 1` around the ring, also where the index has run over;
/// then `n + 1` have been taken.
pub proof fn law_position_of_taken(queue: SplitQueueGetWork, n: nat)
    requires
        is_pow2(queue.queue_size as int),
        queue.last_avail_index == n as int % 0x1_0000,
    ensures
        queue.taken().last_avail_index == (n + 1) % 0x1_0000,
        queue.taken().last_avail_index as int % queue.queue_size as int == (n as int + 1)
            % queue.queue_size as int,
{
    lemma_index_of_count(n + 1, queue.queue_size);
}

/// Once `n` pieces of work have been completed, the next one is completed at the
/// position `n` around the ring, also where the index has run over; then `n + 1`
/// have been completed.
pub proof fn law_position_of_completed(
    queue: SplitQueueCompleteWork,
    n: nat,
    descriptor_index: u16,
    bytes_written: u32,
)
    requires
        is_pow2(queue.queue_size as int),
        queue.last_used_index == n as int % 0x1_0000,
    ensures
        queue.counted().last_used_index == (n + 1) % 0x1_0000,
        queue.element_request(queue.last_used_index, descriptor_index, bytes_written) == (
        Request::Write {
            region: Region::Used,
            offset: (USED_OFFSET_RING + USED_ELEMENT_SIZE * (n as int
                % queue.queue_size as int)) as u64,
            value: Plain::UsedElement(
                UsedElement { id: descriptor_index as u32, len: bytes_written },
            ),
        }),
{
    lemma_index_of_count(n, queue.queue_size);
}

/// Where the driver's index says that there is work, the search turns
/// notifications off and takes the work.
pub proof fn law_available_at_once<E>(
    queue: SplitQueueGetWork,
    index: Seq<u8>,
    done: Seq<Seq<u8>>,
)
    requires
        le::le_u16(index) != queue.last_avail_index,
    ensures
        ({
            let replies = seq![Ok::<Seq<u8>, E>(index), Ok(done[0]), Ok(done[1])];
            let position = (queue.taken().last_avail_index as int % queue.queue_size as int) as u16;
            &&& queue.is_available_run(replies) == (
                queue.taken(),
                Step::<SplitAvailable, Option<u16>, E>::Done(Ok(Some(position))),
            )
            &&& queue.is_available_requests(replies) == seq![
                queue.index_request(),
                queue.notify_request(true),
                Request::Fence(Fence::Acquire),
            ]
        }),
{
    let replies = seq![Ok::<Seq<u8>, E>(index), Ok(done[0]), Ok(done[1])];
    let resume = |queue: SplitQueueGetWork, at: SplitAvailable, reply: Result<Seq<u8>, E>|
        queue.is_available_resume(at, reply);
    let first = queue.wait::<E>(SplitAvailable::Index).1;
    memory::lemma_run_take(queue, first, resume, replies, 0);
    memory::lemma_run_take(queue, first, resume, replies, 1);
    memory::lemma_run_take(queue, first, resume, replies, 2);
}

/// Where the driver's index says at first that there is no work, the search
/// turns notifications on, and looks again before it gives up. Work that the
/// driver has added in between is taken.
pub proof fn law_available_after_rearming<E>(
    queue: SplitQueueGetWork,
    index: Seq<u8>,
    again: Seq<u8>,
    done: Seq<Seq<u8>>,
)
    requires
        le::le_u16(index) == queue.last_avail_index,
        le::le_u16(again) != queue.last_avail_index,
    ensures
        ({
            let replies = seq![
                Ok::<Seq<u8>, E>(index),
                Ok(done[0]),
                Ok(done[1]),
                Ok(again),
                Ok(done[2]),
                Ok(done[3]),
            ];
            let position = (queue.taken().last_avail_index as int % queue.queue_size as int) as u16;
            &&& queue.is_available_run(replies) == (
                queue.taken(),
                Step::<SplitAvailable, Option<u16>, E>::Done(Ok(Some(position))),
            )
            &&& queue.is_available_requests(replies) == seq![
                queue.index_request(),
                queue.notify_request(false),
                Request::Fence(Fence::SeqCst),
                queue.index_request(),
                queue.notify_request(true),
                Request::Fence(Fence::Acquire),
            ]
        }),
{
    let replies = seq![
        Ok::<Seq<u8>, E>(index),
        Ok(done[0]),
        Ok(done[1]),
        Ok(again),
        Ok(done[2]),
        Ok(done[3]),
    ];
    let resume = |queue: SplitQueueGetWork, at: SplitAvailable, reply: Result<Seq<u8>, E>|
        queue.is_available_resume(at, reply);
    let first = queue.wait::<E>(SplitAvailable::Index).1;
    memory::lemma_run_take(queue, first, resume, replies, 0);
    memory::lemma_run_take(queue, first, resume, replies, 1);
    memory::lemma_run_take(queue, first, resume, replies, 2);
    memory::lemma_run_take(queue, first, resume, replies, 3);
    memory::lemma_run_take(queue, first, resume, replies, 4);
    memory::lemma_run_take(queue, first, resume, replies, 5);
}

/// Where there is no work, also when notifications have been turned on, there
/// is none, and the queue is as it was.
pub proof fn law_nothing_available<E>(
    queue: SplitQueueGetWork,
    index: Seq<u8>,
    again: Seq<u8>,
    done: Seq<Seq<u8>>,
)
    requires
        le::le_u16(index) == queue.last_avail_index,
        le::le_u16(again) == queue.last_avail_index,
    ensures
        ({
            let replies = seq![Ok::<Seq<u8>, E>(index), Ok(done[0]), Ok(done[1]), Ok(again)];
            &&& queue.is_available_run(replies) == (
                queue,
                Step::<SplitAvailable, Option<u16>, E>::Done(Ok(None)),
            )
            &&& queue.is_available_requests(replies) == seq![
                queue.index_request(),
                queue.notify_request(false),
                Request::Fence(Fence::SeqCst),
                queue.index_request(),
            ]
        }),
{
    let replies = seq![Ok::<Seq<u8>, E>(index), Ok(done[0]), Ok(done[1]), Ok(again)];
    let resume = |queue: SplitQueueGetWork, at: SplitAvailable, reply: Result<Seq<u8>, E>|
        queue.is_available_resume(at, reply);
    let first = queue.wait::<E>(SplitAvailable::Index).1;
    memory::lemma_run_take(queue, first, resume, replies, 0);
    memory::lemma_run_take(queue, first, resume, replies, 1);
    memory::lemma_run_take(queue, first, resume, replies, 2);
    memory::lemma_run_take(queue, first, resume, replies, 3);
}

/// The requests of a completion.
pub open spec fn completion_requests(
    queue: SplitQueueCompleteWork,
    context: SplitQueueCompletionContext,
    bytes_written: u32,
) -> Seq<Request> {
    seq![
        queue.element_request(queue.last_used_index, context.descriptor_index, bytes_written),
        Request::Fence(Fence::Release),
        queue.index_request(queue.counted().last_used_index),
        Request::Fence(Fence::SeqCst),
        queue.interest_request(),
    ]
}

/// A completion writes the element at the device's index, then the index that
/// follows, and only then reads whether the driver is to be told.
pub proof fn law_completion<E>(
    queue: SplitQueueCompleteWork,
    context: SplitQueueCompletionContext,
    bytes_written: u32,
    done: Seq<Seq<u8>>,
    interest: Seq<u8>,
)
    ensures
        ({
            let replies = seq![
                Ok::<Seq<u8>, E>(done[0]),
                Ok(done[1]),
                Ok(done[2]),
                Ok(done[3]),
                Ok(interest),
            ];
            &&& queue.complete_run(context, bytes_written, replies) == (
                queue.counted(),
                Step::<SplitCompletion, bool, E>::Done(
                    Ok(queue.signals(queue.last_used_index, interest)),
                ),
            )
            &&& queue.complete_requests(context, bytes_written, replies) == completion_requests(
                queue,
                context,
                bytes_written,
            )
        }),
{
    let replies = seq![
        Ok::<Seq<u8>, E>(done[0]),
        Ok(done[1]),
        Ok(done[2]),
        Ok(done[3]),
        Ok(interest),
    ];
    let resume = |queue: SplitQueueCompleteWork, at: SplitCompletion, reply: Result<Seq<u8>, E>|
        queue.complete_resume(context, bytes_written, at, reply);
    let first = queue.complete_start::<E>(context, bytes_written);
    memory::lemma_run_take(queue, first, resume, replies, 0);
    memory::lemma_run_take(queue, first, resume, replies, 1);
    memory::lemma_run_take(queue, first, resume, replies, 2);
    memory::lemma_run_take(queue, first, resume, replies, 3);
    memory::lemma_run_take(queue, first, resume, replies, 4);
}

/// Completions fill the used ring in order: where the size is a power of 2, the
/// element that is written next follows the one that was written last, around
/// the ring, also where the index runs over.
pub proof fn law_completed_in_ring_order(queue: SplitQueueCompleteWork)
    requires
        is_pow2(queue.queue_size as int),
    ensures
        ({
            let size = queue.queue_size as int;
            queue.counted().last_used_index as int % size == (queue.last_used_index as int % size
                + 1) % size
        }),
{
    lemma_index_wraps_in_step(queue.last_used_index, queue.queue_size);
}

/// The element of the used ring that a completion writes.
pub open spec fn element_of(work: (SplitQueueCompletionContext, u32)) -> UsedElement {
    UsedElement { id: work.0.descriptor_index as u32, len: work.1 }
}

/// The bytes of the element at `position` of a used ring.
pub open spec fn element_at(used: Seq<u8>, position: int) -> Seq<u8> {
    used.subrange(
        USED_OFFSET_RING + USED_ELEMENT_SIZE * position,
        USED_OFFSET_RING + USED_ELEMENT_SIZE * position + USED_ELEMENT_SIZE,
    )
}

/// What a used ring holds after one more completion.
#[verifier::opaque]
pub open spec fn ring_after(
    queue: SplitQueueCompleteWork,
    used: Seq<u8>,
    work: (SplitQueueCompletionContext, u32),
) -> Seq<u8> {
    memory::stored_all(used, Region::Used, completion_requests(queue, work.0, work.1))
}

/// The queue, and the used ring, after the given pieces of work have been
/// completed in order.
pub open spec fn completed_all(
    queue: SplitQueueCompleteWork,
    used: Seq<u8>,
    works: Seq<(SplitQueueCompletionContext, u32)>,
) -> (SplitQueueCompleteWork, Seq<u8>)
    decreases works.len(),
{
    if works.len() == 0 {
        (queue, used)
    } else {
        let (before, ring) = completed_all(queue, used, works.drop_last());
        (before.counted(), ring_after(before, ring, works.last()))
    }
}

/// What one completion does to the used ring: it replaces one element and the
/// device's index, and leaves the other elements alone.
proof fn lemma_completion_stores(
    queue: SplitQueueCompleteWork,
    used: Seq<u8>,
    work: (SplitQueueCompletionContext, u32),
)
    requires
        queue.wf(),
        used.len() == used_len(queue.queue_size),
    ensures
        ({
            let after = ring_after(queue, used, work);
            let position = queue.last_used_index as int % queue.queue_size as int;
            &&& after.len() == used.len()
            &&& after.subrange(2, 4) == le::u16_bytes(queue.counted().last_used_index)
            &&& element_at(after, position) == element_of(work).bytes()
            &&& forall|other: int|
                0 <= other < queue.queue_size && other != position ==> #[trigger] element_at(
                    after,
                    other,
                ) == element_at(used, other)
        }),
{
    reveal(ring_after);
    let requests = completion_requests(queue, work.0, work.1);
    let position = queue.last_used_index as int % queue.queue_size as int;
    lemma_mod_bound(queue.last_used_index as int, queue.queue_size as int);
    let at = USED_OFFSET_RING + USED_ELEMENT_SIZE * position;
    let element = element_of(work).bytes();
    let index = le::u16_bytes(queue.counted().last_used_index);
    let with_element = memory::stored(used, Region::Used, requests[0]);
    let after = memory::stored(with_element, Region::Used, requests[2]);
    assert(memory::stored_all(used, Region::Used, requests) == after) by {
        reveal_with_fuel(memory::stored_all, 6);
        assert(requests.drop_last().last() == requests[3]);
        assert(requests.drop_last().drop_last().last() == requests[2]);
        assert(requests.drop_last().drop_last().drop_last().last() == requests[1]);
        assert(requests.drop_last().drop_last().drop_last().drop_last().last() == requests[0]);
    }
    assert(with_element == used.subrange(0, at) + element + used.subrange(
        at + 8,
        used.len() as int,
    ));
    assert(after == with_element.subrange(0, 2) + index + with_element.subrange(
        4,
        used.len() as int,
    ));
    assert(after.subrange(2, 4) =~= index);
    assert(element_at(after, position) =~= element);
    assert forall|other: int|
        0 <= other < queue.queue_size && other != position implies #[trigger] element_at(
        after,
        other,
    ) == element_at(used, other) by {
        assert(element_at(after, other) =~= element_at(used, other));
    }
}

proof fn lemma_positions_differ(first: int, later: int, size: int)
    requires
        0 <= first < later < first + size,
    ensures
        first % size != later % size,
{
    lemma_fundamental_div_mod(first, size);
    lemma_fundamental_div_mod(later, size);
    if first % size == later % size {
        let quotient = later / size - first / size;
        assert(size * quotient == size * (later / size) - size * (first / size))
            by (nonlinear_arith)
            requires
                quotient == later / size - first / size,
        ;
        assert(false) by (nonlinear_arith)
            requires
                0 < size * quotient < size,
        ;
    }
}

/// Whether a ring of `size` elements holds those of the last pieces of work.
#[verifier::opaque]
spec fn ring_holds(
    ring: Seq<u8>,
    works: Seq<(SplitQueueCompletionContext, u32)>,
    before: nat,
    size: int,
) -> bool {
    forall|i: int|
        0 <= i < works.len() && works.len() - size <= i ==> element_at(ring, (before + i) % size)
            == element_of(#[trigger] works[i]).bytes()
}

/// A ring whose elements are those of earlier work, with that of one more piece
/// of work at `position`.
proof fn lemma_ring_gains_element(
    ring: Seq<u8>,
    full: Seq<u8>,
    works: Seq<(SplitQueueCompletionContext, u32)>,
    before: nat,
    size: int,
    position: int,
)
    requires
        size > 0,
        works.len() > 0,
        position == (before + works.len() - 1) % size,
        ring_holds(ring, works.drop_last(), before, size),
        element_at(full, position) == element_of(works.last()).bytes(),
        forall|other: int|
            0 <= other < size && other != position ==> #[trigger] element_at(full, other)
                == element_at(ring, other),
    ensures
        ring_holds(full, works, before, size),
{
    reveal(ring_holds);
    assert forall|i: int| 0 <= i < works.len() && works.len() - size <= i implies element_at(
        full,
        (before + i) % size,
    ) == element_of(#[trigger] works[i]).bytes() by {
        lemma_mod_bound(before + i, size);
        if i < works.len() - 1 {
            assert(works[i] == works.drop_last()[i]);
            lemma_positions_differ(before + i, before + works.len() - 1, size);
        }
    }
}

/// The device's index after `n` completions.
#[verifier::opaque]
spec fn index_of(n: nat) -> u16 {
    (n % 0x1_0000) as u16
}

proof fn lemma_index_step(n: nat, queue: SplitQueueCompleteWork)
    requires
        is_pow2(queue.queue_size as int),
        queue.last_used_index == index_of(n),
    ensures
        queue.last_used_index as int % queue.queue_size as int == n as int
            % queue.queue_size as int,
        queue.counted().last_used_index == index_of(n + 1),
{
    reveal(index_of);
    lemma_index_of_count(n, queue.queue_size);
}

/// One more completion on a ring that holds the earlier ones.
proof fn lemma_completes_one_more(
    last: SplitQueueCompleteWork,
    ring: Seq<u8>,
    works: Seq<(SplitQueueCompletionContext, u32)>,
    before: nat,
)
    requires
        last.wf(),
        works.len() > 0,
        ring.len() == used_len(last.queue_size),
        is_pow2(last.queue_size as int),
        last.last_used_index == index_of(before + works.drop_last().len()),
        ring_holds(ring, works.drop_last(), before, last.queue_size as int),
    ensures
        ({
            let full = ring_after(last, ring, works.last());
            &&& last.counted().last_used_index == index_of(before + works.len())
            &&& full.len() == ring.len()
            &&& full.subrange(2, 4) == le::u16_bytes(last.counted().last_used_index)
            &&& ring_holds(full, works, before, last.queue_size as int)
        }),
{
    let size = last.queue_size as int;
    lemma_index_step(before + works.drop_last().len(), last);
    lemma_completion_stores(last, ring, works.last());
    lemma_ring_gains_element(
        ring,
        ring_after(last, ring, works.last()),
        works,
        before,
        size,
        last.last_used_index as int % size,
    );
}

proof fn lemma_holds_completions(
    queue: SplitQueueCompleteWork,
    used: Seq<u8>,
    works: Seq<(SplitQueueCompletionContext, u32)>,
    before: nat,
)
    requires
        is_pow2(queue.queue_size as int),
        queue.wf(),
        queue.last_used_index == index_of(before),
        used.len() == used_len(queue.queue_size),
    ensures
        ({
            let (after, ring) = completed_all(queue, used, works);
            &&& after == (SplitQueueCompleteWork {
                last_used_index: index_of(before + works.len()),
                ..queue
            })
            &&& ring.len() == used.len()
            &&& works.len() > 0 ==> ring.subrange(2, 4) == le::u16_bytes(after.last_used_index)
            &&& ring_holds(ring, works, before, queue.queue_size as int)
        }),
    decreases works.len(),
{
    if works.len() == 0 {
        reveal(ring_holds);
    } else {
        let earlier = works.drop_last();
        lemma_holds_completions(queue, used, earlier, before);
        let (last, ring) = completed_all(queue, used, earlier);
        lemma_completes_one_more(last, ring, works, before);
    }
}

/// Once pieces of work have been completed, as many of the last of them as the
/// ring has elements are all in the used ring, each at its position, and the
/// index that the driver reads says how many there were. The first `before`
/// pieces of work were completed earlier.
pub proof fn law_used_ring_holds_completions(
    queue: SplitQueueCompleteWork,
    used: Seq<u8>,
    works: Seq<(SplitQueueCompletionContext, u32)>,
    before: nat,
)
    requires
        is_pow2(queue.queue_size as int),
        queue.wf(),
        queue.last_used_index == before as int % 0x1_0000,
        used.len() == used_len(queue.queue_size),
    ensures
        ({
            let (after, ring) = completed_all(queue, used, works);
            let size = queue.queue_size as int;
            &&& after == (SplitQueueCompleteWork {
                last_used_index: ((before + works.len()) % 0x1_0000) as u16,
                ..queue
            })
            &&& ring.len() == used.len()
            &&& works.len() > 0 ==> ring.subrange(2, 4) == le::u16_bytes(after.last_used_index)
            &&& forall|i: int|
                0 <= i < works.len() && works.len() - size <= i ==> element_at(
                    ring,
                    (before + i) % size,
                ) == element_of(#[trigger] works[i]).bytes()
        }),
{
    reveal(index_of);
    lemma_holds_completions(queue, used, works, before);
    reveal(ring_holds);
}

/// Where each part of the rings lies, whatever the index or the value is: flags
/// at byte 0, an index at byte 2, the elements from byte 4 on, of two bytes each
/// in the available ring and of eight in the used ring, and an event index behind
/// them.
pub proof fn law_parts_of_rings(
    get_work: SplitQueueGetWork,
    complete_work: SplitQueueCompleteWork,
    flags: UsedFlags,
    index: u16,
    descriptor_index: u16,
    bytes_written: u32,
)
    ensures
        get_work.index_request() == (Request::Read {
            region: Region::Available,
            offset: 2,
            len: 2,
        }),
        get_work.element_request(index) == (Request::Read {
            region: Region::Available,
            offset: (4 + 2 * index) as u64,
            len: 2,
        }),
        get_work.flags_request(flags) == (Request::Write {
            region: Region::Used,
            offset: 0,
            value: Plain::U16(flags.bits),
        }),
        get_work.event_request(index) == (Request::Write {
            region: Region::Used,
            offset: (4 + 8 * get_work.queue_size) as u64,
            value: Plain::U16(index),
        }),
        complete_work.index_request(index) == (Request::Write {
            region: Region::Used,
            offset: 2,
            value: Plain::U16(index),
        }),
        complete_work.element_request(index, descriptor_index, bytes_written) == (Request::Write {
            region: Region::Used,
            offset: (4 + 8 * (index as int % complete_work.queue_size as int)) as u64,
            value: Plain::UsedElement(
                UsedElement { id: descriptor_index as u32, len: bytes_written },
            ),
        }),
        complete_work.interest_request() == (Request::Read {
            region: Region::Available,
            offset: if complete_work.use_ring_event_index {
                (4 + 2 * complete_work.queue_size) as u64
            } else {
                0
            },
            len: 2,
        }),
{
}

/// The elements of the available ring do not overlap: two reads are of the same
/// bytes exactly where they are of the same element.
pub proof fn law_elements_are_apart(queue: SplitQueueGetWork, first: u16, second: u16)
    ensures
        first != second ==> {
            let a = queue.element_request(first);
            let b = queue.element_request(second);
            a->Read_offset + 2 <= b->Read_offset || b->Read_offset + 2 <= a->Read_offset
        },
{
}

/// A failed access ends the search, or the completion, with the error of guest
/// memory, and the queue stays as it was before the access.
pub proof fn law_split_access_fails<E>(
    get_work: SplitQueueGetWork,
    complete_work: SplitQueueCompleteWork,
    context: SplitQueueCompletionContext,
    bytes_written: u32,
    available: SplitAvailable,
    completion: SplitCompletion,
    e: E,
)
    ensures
        get_work.is_available_resume(available, Err(e)) == (
            get_work,
            Step::<SplitAvailable, Option<u16>, E>::Done(Err(QueueError::Memory(e))),
        ),
        complete_work.complete_resume(context, bytes_written, completion, Err(e)) == (
            complete_work,
            Step::<SplitCompletion, bool, E>::Done(Err(QueueError::Memory(e))),
        ),
{
}

/// Every access of the search, and of the fetching of an element at a position
/// that the search has found, lies in the rings as they were taken when the
/// queue was made.
pub proof fn law_search_stays_in_rings(queue: SplitQueueGetWork, at: SplitAvailable, index: u16)
    requires
        index < queue.queue_size,
    ensures
        ({
            let request = queue.request_at(at);
            ||| request is Fence
            ||| memory::within(request, Region::Available, available_len(queue.queue_size))
            ||| memory::within(request, Region::Used, used_len(queue.queue_size))
        }),
        memory::within(
            queue.element_request(index),
            Region::Available,
            available_len(queue.queue_size),
        ),
{
}

/// Every access of a completion lies in the rings as they were taken when the
/// queue was made.
pub proof fn law_completion_stays_in_rings(
    queue: SplitQueueCompleteWork,
    context: SplitQueueCompletionContext,
    bytes_written: u32,
    at: SplitCompletion,
)
    requires
        queue.wf(),
    ensures
        ({
            let request = queue.request_at(context, bytes_written, at);
            ||| request is Fence
            ||| memory::within(request, Region::Available, available_len(queue.queue_size))
            ||| memory::within(request, Region::Used, used_len(queue.queue_size))
        }),
{
}

} // verus!
