//! The two halves of the device side of a split queue: getting work from the
//! available ring, and completing it on the used ring.

use crate::layout::{
    AvailableFlags, UsedElement, UsedFlags, VirtioDeviceFeatures, AVAIL_ELEMENT_SIZE,
    AVAIL_OFFSET_FLAGS, AVAIL_OFFSET_IDX, AVAIL_OFFSET_RING, EVENT_INDEX_SIZE, USED_ELEMENT_SIZE,
    USED_OFFSET_FLAGS, USED_OFFSET_IDX, USED_OFFSET_RING,
};
use crate::le;
use crate::memory;
use crate::memory::{Event, Fence, Plain, QueueError, Region, Request, Step};
use crate::queue::QueueParams;
use vstd::prelude::*;

verus! {

/// What a split queue needs in order to complete a piece of work.
#[derive(Debug, Clone, Copy, PartialEq, Eq)]
pub struct SplitQueueCompletionContext {
    pub descriptor_index: u16,
}

/// Where the making of a half of a split queue waits.
#[derive(Debug, Clone, Copy, PartialEq, Eq)]
pub enum SplitSetup {
    /// For the available ring.
    Available,
    /// For the used ring.
    Used,
}

/// The length of the available ring of a queue of `size`, with its event index.
pub open spec fn available_len(size: u16) -> u64 {
    (AVAIL_OFFSET_RING + AVAIL_ELEMENT_SIZE * size + EVENT_INDEX_SIZE) as u64
}

/// The length of the used ring of a queue of `size`, with its event index.
pub open spec fn used_len(size: u16) -> u64 {
    (USED_OFFSET_RING + USED_ELEMENT_SIZE * size + EVENT_INDEX_SIZE) as u64
}

/// The request for a ring of a split queue.
pub open spec fn split_setup_request(params: QueueParams, at: SplitSetup) -> Request {
    match at {
        SplitSetup::Available => Request::Subrange {
            region: Region::Available,
            addr: params.avail_addr,
            len: available_len(params.size),
        },
        SplitSetup::Used => Request::Subrange {
            region: Region::Used,
            addr: params.used_addr,
            len: used_len(params.size),
        },
    }
}

fn take_ring(params: &QueueParams, at: SplitSetup) -> (request: Request)
    ensures
        request == split_setup_request(*params, at),
{
    match at {
        SplitSetup::Available => Request::Subrange {
            region: Region::Available,
            addr: params.avail_addr,
            len: AVAIL_OFFSET_RING + AVAIL_ELEMENT_SIZE * params.size as u64 + EVENT_INDEX_SIZE,
        },
        SplitSetup::Used => Request::Subrange {
            region: Region::Used,
            addr: params.used_addr,
            len: USED_OFFSET_RING + USED_ELEMENT_SIZE * params.size as u64 + EVENT_INDEX_SIZE,
        },
    }
}

/// The making of a half of a split queue: it takes the available ring, then
/// the used ring, and is `made` once it has both.
pub open spec fn split_setup<T, E>(
    params: QueueParams,
    event: Event<SplitSetup, E>,
    made: T,
) -> Step<SplitSetup, T, E> {
    match event {
        Event::Start => Step::Wait {
            at: SplitSetup::Available,
            request: split_setup_request(params, SplitSetup::Available),
        },
        Event::Reply { at, reply: Err(e) } => Step::Done(Err(QueueError::Memory(e))),
        Event::Reply { at: SplitSetup::Available, reply: Ok(_) } => Step::Wait {
            at: SplitSetup::Used,
            request: split_setup_request(params, SplitSetup::Used),
        },
        Event::Reply { at: SplitSetup::Used, reply: Ok(_) } => Step::Done(Ok(made)),
    }
}

/// The half of a split queue that gets work.
#[derive(Debug, Clone, Copy, PartialEq, Eq)]
pub struct SplitQueueGetWork {
    pub queue_size: u16,
    /// The driver's index up to which work has been taken.
    pub last_avail_index: u16,
    pub use_ring_event_index: bool,
}

/// Where the search for available work waits.
#[derive(Debug, Clone, Copy, PartialEq, Eq)]
pub enum SplitAvailable {
    /// For the driver's index.
    Index,
    /// For the request to be told of new work.
    Rearm,
    /// For the fence after that request.
    RearmFence,
    /// For the driver's index, read again.
    IndexAgain,
    /// For the request not to be told of new work.
    Suppress,
    /// For the fence before the descriptors are read.
    SuppressFence,
}

impl SplitQueueGetWork {
    /// The ring is not empty.
    pub open spec fn wf(self) -> bool {
        self.queue_size > 0
    }

    /// The request for the driver's index.
    pub open spec fn index_request(self) -> Request {
        Request::Read { region: Region::Available, offset: AVAIL_OFFSET_IDX, len: 2 }
    }

    /// The request that sets the flags of the used ring.
    pub open spec fn flags_request(self, flags: UsedFlags) -> Request {
        Request::Write {
            region: Region::Used,
            offset: USED_OFFSET_FLAGS,
            value: Plain::U16(flags.bits),
        }
    }

    /// The request that sets the index at which the driver is to tell of new
    /// work. It follows the elements of the used ring.
    pub open spec fn event_request(self, index: u16) -> Request {
        Request::Write {
            region: Region::Used,
            offset: (USED_OFFSET_RING + USED_ELEMENT_SIZE * self.queue_size) as u64,
            value: Plain::U16(index),
        }
    }

    /// The request for an element of the available ring.
    pub open spec fn element_request(self, wrapped_index: u16) -> Request {
        Request::Read {
            region: Region::Available,
            offset: (AVAIL_OFFSET_RING + AVAIL_ELEMENT_SIZE * wrapped_index) as u64,
            len: 2,
        }
    }

    /// The request by which the device asks to be told, or not to be told, of
    /// new work.
    pub open spec fn notify_request(self, no_notify: bool) -> Request {
        if self.use_ring_event_index {
            self.event_request(self.last_avail_index)
        } else {
            self.flags_request(UsedFlags::spec_no_notify(no_notify))
        }
    }

    /// The request whose reply the search waits for at `at`.
    pub open spec fn request_at(self, at: SplitAvailable) -> Request {
        match at {
            SplitAvailable::Index => self.index_request(),
            SplitAvailable::Rearm => self.notify_request(false),
            SplitAvailable::RearmFence => Request::Fence(Fence::SeqCst),
            SplitAvailable::IndexAgain => self.index_request(),
            SplitAvailable::Suppress => self.notify_request(true),
            SplitAvailable::SuppressFence => Request::Fence(Fence::Acquire),
        }
    }

    /// The queue after one more piece of work has been taken.
    pub open spec fn taken(self) -> Self {
        SplitQueueGetWork {
            last_avail_index: ((self.last_avail_index + 1) % 0x1_0000) as u16,
            ..self
        }
    }

    /// The search waits at `at`, with the queue as it is.
    pub open spec fn wait<E>(self, at: SplitAvailable) -> (
        Self,
        Step<SplitAvailable, Option<u16>, E>,
    ) {
        (self, Step::Wait { at, request: self.request_at(at) })
    }

    /// What the search does on the reply at `at`. There is work where the
    /// driver's index, read once or, after the driver has been asked to tell
    /// of new work, twice, is not the one up to which work has been taken.
    pub open spec fn is_available_resume<E>(
        self,
        at: SplitAvailable,
        reply: Result<Seq<u8>, E>,
    ) -> (Self, Step<SplitAvailable, Option<u16>, E>) {
        match reply {
            Err(e) => (self, Step::Done(Err(QueueError::Memory(e)))),
            Ok(data) => match at {
                SplitAvailable::Index => if le::le_u16(data) == self.last_avail_index {
                    self.wait(SplitAvailable::Rearm)
                } else {
                    self.wait(SplitAvailable::Suppress)
                },
                SplitAvailable::Rearm => self.wait(SplitAvailable::RearmFence),
                SplitAvailable::RearmFence => self.wait(SplitAvailable::IndexAgain),
                SplitAvailable::IndexAgain => if le::le_u16(data) == self.last_avail_index {
                    (self, Step::Done(Ok(None)))
                } else {
                    self.wait(SplitAvailable::Suppress)
                },
                SplitAvailable::Suppress => self.wait(SplitAvailable::SuppressFence),
                SplitAvailable::SuppressFence => (
                    self.taken(),
                    Step::Done(
                        Ok(
                            Some(
                                (self.taken().last_avail_index as int
                                    % self.queue_size as int) as u16,
                            ),
                        ),
                    ),
                ),
            },
        }
    }

    /// Where the search stands after the replies in order.
    pub open spec fn is_available_run<E>(self, replies: Seq<Result<Seq<u8>, E>>) -> (
        Self,
        Step<SplitAvailable, Option<u16>, E>,
    ) {
        memory::run(
            self,
            self.wait::<E>(SplitAvailable::Index).1,
            |queue: Self, at: SplitAvailable, reply: Result<Seq<u8>, E>|
                queue.is_available_resume(at, reply),
            replies,
        )
    }

    /// The requests that the search has made after the replies in order.
    pub open spec fn is_available_requests<E>(self, replies: Seq<Result<Seq<u8>, E>>) -> Seq<
        Request,
    > {
        memory::requests(
            self,
            self.wait::<E>(SplitAvailable::Index).1,
            |queue: Self, at: SplitAvailable, reply: Result<Seq<u8>, E>|
                queue.is_available_resume(at, reply),
            replies,
        )
    }

    /// Makes the half of a split queue that gets work.
    pub fn new<E>(
        features: VirtioDeviceFeatures,
        params: QueueParams,
        event: Event<SplitSetup, E>,
    ) -> (step: Step<SplitSetup, Self, E>)
        ensures
            step == split_setup(
                params,
                event,
                (SplitQueueGetWork {
                    queue_size: params.size,
                    last_avail_index: 0,
                    use_ring_event_index: features.bank0().ring_event_idx(),
                }),
            ),
    {
        match event {
            Event::Start => Step::Wait {
                at: SplitSetup::Available,
                request: take_ring(&params, SplitSetup::Available),
            },
            Event::Reply { at, reply } => {
                if let Err(e) = reply {
                    return Step::Done(Err(QueueError::Memory(e)));
                }
                match at {
                    SplitSetup::Available => Step::Wait {
                        at: SplitSetup::Used,
                        request: take_ring(&params, SplitSetup::Used),
                    },
                    SplitSetup::Used => Step::Done(
                        Ok(
                            SplitQueueGetWork {
                                queue_size: params.size,
                                last_avail_index: 0,
                                use_ring_event_index: features.bank0().ring_event_idx(),
                            },
                        ),
                    ),
                }
            },
        }
    }

    /// Sets the flags of the used ring.
    pub fn set_used_flags(&self, flags: UsedFlags) -> (request: Request)
        ensures
            request == self.flags_request(flags),
    {
        Request::Write {
            region: Region::Used,
            offset: USED_OFFSET_FLAGS,
            value: Plain::U16(flags.bits),
        }
    }

    /// Asks for the driver's index.
    pub fn get_available_index(&self) -> (request: Request)
        ensures
            request == self.index_request(),
    {
        Request::Read { region: Region::Available, offset: AVAIL_OFFSET_IDX, len: 2 }
    }

    /// Asks for the descriptor index at `wrapped_index` of the available ring.
    pub fn get_available_descriptor_index(&self, wrapped_index: u16) -> (request: Request)
        ensures
            request == self.element_request(wrapped_index),
    {
        Request::Read {
            region: Region::Available,
            offset: AVAIL_OFFSET_RING + AVAIL_ELEMENT_SIZE * wrapped_index as u64,
            len: 2,
        }
    }

    /// Sets the index at which the driver is to tell of new work.
    pub fn set_available_event(&self, index: u16) -> (request: Request)
        ensures
            request == self.event_request(index),
    {
        Request::Write {
            region: Region::Used,
            offset: USED_OFFSET_RING + USED_ELEMENT_SIZE * self.queue_size as u64,
            value: Plain::U16(index),
        }
    }

    fn suppress(&self) -> (request: Request)
        ensures
            request == self.request_at(SplitAvailable::Suppress),
    {
        if self.use_ring_event_index {
            self.set_available_event(self.last_avail_index)
        } else {
            self.set_used_flags(UsedFlags::new().with_no_notify(true))
        }
    }

    /// Looks for available work, and takes it: the result is its position in
    /// the available ring.
    pub fn is_available<E>(&mut self, event: Event<SplitAvailable, E>) -> (step: Step<
        SplitAvailable,
        Option<u16>,
        E,
    >)
        requires
            old(self).wf(),
            event matches Event::Reply { at, reply } ==> memory::answers(
                old(self).request_at(at),
                memory::reply_view(reply),
            ),
        ensures
            match event {
                Event::Start => (*final(self), step) == old(self).wait::<E>(SplitAvailable::Index),
                Event::Reply { at, reply } => (*final(self), step) == old(
                    self,
                ).is_available_resume(at, memory::reply_view(reply)),
            },
            final(self).wf(),
            step matches Step::Wait { at, request } ==> request == final(self).request_at(at),
            step matches Step::Done(Ok(Some(index))) ==> index < final(self).queue_size,
    {
        match event {
            Event::Start => Step::Wait {
                at: SplitAvailable::Index,
                request: self.get_available_index(),
            },
            Event::Reply { at, reply } => {
                let data = match reply {
                    Ok(data) => data,
                    Err(e) => {
                        return Step::Done(Err(QueueError::Memory(e)));
                    },
                };
                match at {
                    SplitAvailable::Index => {
                        assert(data@.subrange(0, 2) =~= data@);
                        let avail_index: u16 = le::read_u16(&data, 0);
                        if avail_index == self.last_avail_index {
                            let request = if self.use_ring_event_index {
                                self.set_available_event(avail_index)
                            } else {
                                self.set_used_flags(UsedFlags::new())
                            };
                            Step::Wait { at: SplitAvailable::Rearm, request }
                        } else {
                            Step::Wait { at: SplitAvailable::Suppress, request: self.suppress() }
                        }
                    },
                    // Ensure the available event/used flags are visible before
                    // checking the available index again.
                    SplitAvailable::Rearm => Step::Wait {
                        at: SplitAvailable::RearmFence,
                        request: Request::Fence(Fence::SeqCst),
                    },
                    SplitAvailable::RearmFence => Step::Wait {
                        at: SplitAvailable::IndexAgain,
                        request: self.get_available_index(),
                    },
                    SplitAvailable::IndexAgain => {
                        assert(data@.subrange(0, 2) =~= data@);
                        let avail_index: u16 = le::read_u16(&data, 0);
                        if avail_index == self.last_avail_index {
                            Step::Done(Ok(None))
                        } else {
                            Step::Wait { at: SplitAvailable::Suppress, request: self.suppress() }
                        }
                    },
                    // Ensure available index read is ordered before subsequent
                    // descriptor reads.
                    SplitAvailable::Suppress => Step::Wait {
                        at: SplitAvailable::SuppressFence,
                        request: Request::Fence(Fence::Acquire),
                    },
                    SplitAvailable::SuppressFence => {
                        self.last_avail_index = self.last_avail_index.wrapping_add(1);
                        Step::Done(Ok(Some(self.last_avail_index % self.queue_size)))
                    },
                }
            },
        }
    }
}

/// The half of a split queue that completes work.
#[derive(Debug, Clone, Copy, PartialEq, Eq)]
pub struct SplitQueueCompleteWork {
    pub queue_size: u16,
    /// The device's index: how many pieces of work have been completed, in 16
    /// bits.
    pub last_used_index: u16,
    pub use_ring_event_index: bool,
}

/// Where the completion of a piece of work waits. `completed` is the device's
/// index before the completion.
#[derive(Debug, Clone, Copy, PartialEq, Eq)]
pub enum SplitCompletion {
    /// For the element of the used ring to be written.
    Element,
    /// For the fence after it.
    ElementFence { completed: u16 },
    /// For the device's index to be written.
    Index { completed: u16 },
    /// For the fence after it.
    IndexFence { completed: u16 },
    /// For what says whether the driver is to be told.
    Interest { completed: u16 },
}

impl SplitQueueCompleteWork {
    /// The ring is not empty.
    pub open spec fn wf(self) -> bool {
        self.queue_size > 0
    }

    /// The request that writes an element of the used ring.
    pub open spec fn element_request(
        self,
        index: u16,
        descriptor_index: u16,
        bytes_written: u32,
    ) -> Request {
        Request::Write {
            region: Region::Used,
            offset: (USED_OFFSET_RING + USED_ELEMENT_SIZE * (index as int
                % self.queue_size as int)) as u64,
            value: Plain::UsedElement(
                UsedElement { id: descriptor_index as u32, len: bytes_written },
            ),
        }
    }

    /// The request that writes the device's index.
    pub open spec fn index_request(self, index: u16) -> Request {
        Request::Write { region: Region::Used, offset: USED_OFFSET_IDX, value: Plain::U16(index) }
    }

    /// The request for what says whether the driver is to be told: the index
    /// that follows the elements of the available ring, or the flags of the
    /// available ring.
    pub open spec fn interest_request(self) -> Request {
        Request::Read {
            region: Region::Available,
            offset: if self.use_ring_event_index {
                (AVAIL_OFFSET_RING + AVAIL_ELEMENT_SIZE * self.queue_size) as u64
            } else {
                AVAIL_OFFSET_FLAGS
            },
            len: 2,
        }
    }

    /// The request whose reply the completion waits for at `at`.
    pub open spec fn request_at(
        self,
        context: SplitQueueCompletionContext,
        bytes_written: u32,
        at: SplitCompletion,
    ) -> Request {
        match at {
            SplitCompletion::Element => self.element_request(
                self.last_used_index,
                context.descriptor_index,
                bytes_written,
            ),
            SplitCompletion::ElementFence { completed } => Request::Fence(Fence::Release),
            SplitCompletion::Index { completed } => self.index_request(self.last_used_index),
            SplitCompletion::IndexFence { completed } => Request::Fence(Fence::SeqCst),
            SplitCompletion::Interest { completed } => self.interest_request(),
        }
    }

    /// The queue after one more completion.
    pub open spec fn counted(self) -> Self {
        SplitQueueCompleteWork {
            last_used_index: ((self.last_used_index + 1) % 0x1_0000) as u16,
            ..self
        }
    }

    /// Whether the driver is to be told of the completion that began at the
    /// device's index `completed`.
    pub open spec fn signals(self, completed: u16, data: Seq<u8>) -> bool {
        if self.use_ring_event_index {
            completed == le::le_u16(data)
        } else {
            !(AvailableFlags { bits: le::le_u16(data) }).no_interrupt()
        }
    }

    /// What the completion does on the reply at `at`.
    pub open spec fn complete_resume<E>(
        self,
        context: SplitQueueCompletionContext,
        bytes_written: u32,
        at: SplitCompletion,
        reply: Result<Seq<u8>, E>,
    ) -> (Self, Step<SplitCompletion, bool, E>) {
        match reply {
            Err(e) => (self, Step::Done(Err(QueueError::Memory(e)))),
            Ok(data) => match at {
                SplitCompletion::Interest { completed } => (
                    self,
                    Step::Done(Ok(self.signals(completed, data))),
                ),
                _ => {
                    let (queue, next) = match at {
                        SplitCompletion::Element => (
                            self.counted(),
                            SplitCompletion::ElementFence { completed: self.last_used_index },
                        ),
                        SplitCompletion::ElementFence { completed } => (
                            self,
                            SplitCompletion::Index { completed },
                        ),
                        SplitCompletion::Index { completed } => (
                            self,
                            SplitCompletion::IndexFence { completed },
                        ),
                        SplitCompletion::IndexFence { completed } => (
                            self,
                            SplitCompletion::Interest { completed },
                        ),
                        SplitCompletion::Interest { completed } => (self, at),
                    };
                    (
                        queue,
                        Step::Wait {
                            at: next,
                            request: queue.request_at(context, bytes_written, next),
                        },
                    )
                },
            },
        }
    }

    /// What the completion does first.
    pub open spec fn complete_start<E>(
        self,
        context: SplitQueueCompletionContext,
        bytes_written: u32,
    ) -> Step<SplitCompletion, bool, E> {
        Step::Wait {
            at: SplitCompletion::Element,
            request: self.request_at(context, bytes_written, SplitCompletion::Element),
        }
    }

    /// Where the completion stands after the replies in order.
    pub open spec fn complete_run<E>(
        self,
        context: SplitQueueCompletionContext,
        bytes_written: u32,
        replies: Seq<Result<Seq<u8>, E>>,
    ) -> (Self, Step<SplitCompletion, bool, E>) {
        memory::run(
            self,
            self.complete_start::<E>(context, bytes_written),
            |queue: Self, at: SplitCompletion, reply: Result<Seq<u8>, E>|
                queue.complete_resume(context, bytes_written, at, reply),
            replies,
        )
    }

    /// The requests that the completion has made after the replies in order.
    pub open spec fn complete_requests<E>(
        self,
        context: SplitQueueCompletionContext,
        bytes_written: u32,
        replies: Seq<Result<Seq<u8>, E>>,
    ) -> Seq<Request> {
        memory::requests(
            self,
            self.complete_start::<E>(context, bytes_written),
            |queue: Self, at: SplitCompletion, reply: Result<Seq<u8>, E>|
                queue.complete_resume(context, bytes_written, at, reply),
            replies,
        )
    }

    /// Makes the half of a split queue that completes work.
    pub fn new<E>(
        features: VirtioDeviceFeatures,
        params: QueueParams,
        event: Event<SplitSetup, E>,
    ) -> (step: Step<SplitSetup, Self, E>)
        ensures
            step == split_setup(
                params,
                event,
                (SplitQueueCompleteWork {
                    queue_size: params.size,
                    last_used_index: 0,
                    use_ring_event_index: features.bank0().ring_event_idx(),
                }),
            ),
    {
        match event {
            Event::Start => Step::Wait {
                at: SplitSetup::Available,
                request: take_ring(&params, SplitSetup::Available),
            },
            Event::Reply { at, reply } => {
                if let Err(e) = reply {
                    return Step::Done(Err(QueueError::Memory(e)));
                }
                match at {
                    SplitSetup::Available => Step::Wait {
                        at: SplitSetup::Used,
                        request: take_ring(&params, SplitSetup::Used),
                    },
                    SplitSetup::Used => Step::Done(
                        Ok(
                            SplitQueueCompleteWork {
                                queue_size: params.size,
                                last_used_index: 0,
                                use_ring_event_index: features.bank0().ring_event_idx(),
                            },
                        ),
                    ),
                }
            },
        }
    }

    /// Asks for the flags of the available ring.
    pub fn get_available_flags(&self) -> (request: Request)
        ensures
            request == (Request::Read {
                region: Region::Available,
                offset: AVAIL_OFFSET_FLAGS,
                len: 2,
            }),
    {
        Request::Read { region: Region::Available, offset: AVAIL_OFFSET_FLAGS, len: 2 }
    }

    /// Asks for the index at which the driver wants to be told.
    pub fn get_used_event(&self) -> (request: Request)
        ensures
            request == (Request::Read {
                region: Region::Available,
                offset: (AVAIL_OFFSET_RING + AVAIL_ELEMENT_SIZE * self.queue_size) as u64,
                len: 2,
            }),
    {
        let addr: u64 = AVAIL_OFFSET_RING + AVAIL_ELEMENT_SIZE * self.queue_size as u64;
        Request::Read { region: Region::Available, offset: addr, len: 2 }
    }

    /// Writes an element of the used ring.
    pub fn set_used_descriptor(
        &self,
        queue_last_used_index: u16,
        descriptor_index: u16,
        bytes_written: u32,
    ) -> (request: Request)
        requires
            self.wf(),
        ensures
            request == self.element_request(queue_last_used_index, descriptor_index, bytes_written),
    {
        let wrapped_index: u64 = (queue_last_used_index % self.queue_size) as u64;
        Request::Write {
            region: Region::Used,
            offset: USED_OFFSET_RING + USED_ELEMENT_SIZE * wrapped_index,
            value: Plain::UsedElement(
                UsedElement { id: descriptor_index as u32, len: bytes_written },
            ),
        }
    }

    /// Writes the device's index.
    pub fn set_used_index(&self, index: u16) -> (request: Request)
        ensures
            request == self.index_request(index),
    {
        Request::Write { region: Region::Used, offset: USED_OFFSET_IDX, value: Plain::U16(index) }
    }

    /// Completes a piece of work: the result says whether the driver is to be
    /// told.
    pub fn complete_descriptor<E>(
        &mut self,
        context: &SplitQueueCompletionContext,
        bytes_written: u32,
        event: Event<SplitCompletion, E>,
    ) -> (step: Step<SplitCompletion, bool, E>)
        requires
            old(self).wf(),
            event matches Event::Reply { at, reply } ==> memory::answers(
                old(self).request_at(*context, bytes_written, at),
                memory::reply_view(reply),
            ),
        ensures
            match event {
                Event::Start => *final(self) == *old(self) && step == old(
                    self,
                ).complete_start::<E>(*context, bytes_written),
                Event::Reply { at, reply } => (*final(self), step) == old(self).complete_resume(
                    *context,
                    bytes_written,
                    at,
                    memory::reply_view(reply),
                ),
            },
            final(self).wf(),
            step matches Step::Wait { at, request } ==> request == final(self).request_at(
                *context,
                bytes_written,
                at,
            ),
    {
        match event {
            Event::Start => Step::Wait {
                at: SplitCompletion::Element,
                request: self.set_used_descriptor(
                    self.last_used_index,
                    context.descriptor_index,
                    bytes_written,
                ),
            },
            Event::Reply { at, reply } => {
                let data = match reply {
                    Ok(data) => data,
                    Err(e) => {
                        return Step::Done(Err(QueueError::Memory(e)));
                    },
                };
                match at {
                    // Ensure used element writes are ordered before used index
                    // write.
                    SplitCompletion::Element => {
                        let completed: u16 = self.last_used_index;
                        self.last_used_index = self.last_used_index.wrapping_add(1);
                        Step::Wait {
                            at: SplitCompletion::ElementFence { completed },
                            request: Request::Fence(Fence::Release),
                        }
                    },
                    SplitCompletion::ElementFence { completed } => Step::Wait {
                        at: SplitCompletion::Index { completed },
                        request: self.set_used_index(self.last_used_index),
                    },
                    // Ensure the used index write is visible before reading the
                    // field that determines whether to signal.
                    SplitCompletion::Index { completed } => Step::Wait {
                        at: SplitCompletion::IndexFence { completed },
                        request: Request::Fence(Fence::SeqCst),
                    },
                    SplitCompletion::IndexFence { completed } => {
                        let request = if self.use_ring_event_index {
                            self.get_used_event()
                        } else {
                            self.get_available_flags()
                        };
                        Step::Wait { at: SplitCompletion::Interest { completed }, request }
                    },
                    SplitCompletion::Interest { completed } => {
                        assert(data@.subrange(0, 2) =~= data@);
                        let found: u16 = le::read_u16(&data, 0);
                        let send_signal = if self.use_ring_event_index {
                            completed == found
                        } else {
                            !AvailableFlags { bits: found }.no_interrupt()
                        };
                        Step::Done(Ok(send_signal))
                    },
                }
            },
        }
    }
}

} // verus!
