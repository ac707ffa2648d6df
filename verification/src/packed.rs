//! The two halves of the device side of a packed queue: getting work from the
//! descriptor ring, and completing it there.

use crate::descriptor;
use crate::descriptor::{read_descriptor, QueueDescriptor};
use crate::layout::{
    DescriptorFlags, EventSuppressionFlags, PackedDescriptor, PackedEventSuppresion,
    VirtioDeviceFeatures, DESCRIPTOR_SIZE, EVENT_SUPPRESSION_SIZE,
};
use crate::le;
use crate::memory;
use crate::memory::{Event, Fence, Plain, QueueError, Region, Request, Step};
use crate::queue::QueueParams;
use vstd::prelude::*;

verus! {

/// What a packed queue needs in order to complete a piece of work.
#[derive(Debug, Clone, Copy, PartialEq, Eq)]
pub struct PackedQueueCompletionContext {
    pub descriptor_index: u16,
    pub buffer_id: u16,
    pub descriptor_count: u16,
}

/// Where the making of a half of a packed queue waits.
#[derive(Debug, Clone, Copy, PartialEq, Eq)]
pub enum PackedSetup {
    /// For the descriptor ring.
    Ring,
    /// For the event suppression structure.
    EventSuppression,
}

/// The request for the descriptor ring, or for the event suppression structure
/// `region`, which lies `distance` bytes after the ring.
pub open spec fn packed_setup_request(
    params: QueueParams,
    region: Region,
    distance: int,
    at: PackedSetup,
) -> Request {
    match at {
        PackedSetup::Ring => Request::Subrange {
            region: Region::PackedRing,
            addr: params.desc_addr,
            len: (DESCRIPTOR_SIZE * params.size) as u64,
        },
        PackedSetup::EventSuppression => Request::Subrange {
            region,
            addr: (params.desc_addr + DESCRIPTOR_SIZE * params.size + distance) as u64,
            len: EVENT_SUPPRESSION_SIZE,
        },
    }
}

/// The making of a half of a packed queue: it takes the descriptor ring, then
/// its event suppression structure, and is `made` once it has both.
pub open spec fn packed_setup<T, E>(
    params: QueueParams,
    region: Region,
    distance: int,
    event: Event<PackedSetup, E>,
    made: T,
) -> Step<PackedSetup, T, E> {
    match event {
        Event::Start => Step::Wait {
            at: PackedSetup::Ring,
            request: packed_setup_request(params, region, distance, PackedSetup::Ring),
        },
        Event::Reply { at, reply: Err(e) } => Step::Done(Err(QueueError::Memory(e))),
        Event::Reply { at: PackedSetup::Ring, reply: Ok(_) } => Step::Wait {
            at: PackedSetup::EventSuppression,
            request: packed_setup_request(params, region, distance, PackedSetup::EventSuppression),
        },
        Event::Reply { at: PackedSetup::EventSuppression, reply: Ok(_) } => Step::Done(Ok(made)),
    }
}

/// Whether the address of an event suppression structure that lies `distance`
/// bytes after the ring can be told, once the ring has been granted.
pub open spec fn event_suppression_in_space<E>(
    params: QueueParams,
    distance: int,
    event: Event<PackedSetup, E>,
) -> bool {
    event matches Event::Reply { at: PackedSetup::Ring, reply: Ok(_) } ==> params.desc_addr
        + DESCRIPTOR_SIZE * params.size + distance <= u64::MAX
}

/// The ring position and the wrap counter after `count` descriptors from the
/// position `index` on, where the last position was `current`.
pub open spec fn advanced(
    queue_size: u16,
    index: u16,
    count: u16,
    current: u16,
    wrapped_bit: bool,
) -> (u16, bool) {
    let next = ((index + count) % queue_size as int) as u16;
    (next, if next < current {
        !wrapped_bit
    } else {
        wrapped_bit
    })
}

/// Whether a descriptor with the given flags has been made available, and not
/// yet used, in the lap that the wrap counter says.
pub open spec fn ready(flags: DescriptorFlags, wrapped_bit: bool) -> bool {
    flags.available() == wrapped_bit && flags.used() != wrapped_bit
}

/// The half of a packed queue that gets work.
#[derive(Debug, Clone, Copy, PartialEq, Eq)]
pub struct PackedQueueGetWork {
    pub queue_size: u16,
    /// The ring position of the next descriptor.
    pub next_avail_index: u16,
    pub _use_event_index: bool,
    /// The wrap counter of that position.
    pub wrapped_bit: bool,
}

/// Where the search for available work waits.
#[derive(Debug, Clone, Copy, PartialEq, Eq)]
pub enum PackedAvailable {
    /// For events to be turned off.
    Disable,
    /// For the fence after that.
    DisableFence,
    /// For the next descriptor.
    Descriptor,
    /// For events to be turned on.
    Enable,
    /// For the fence after that.
    EnableFence,
    /// For the next descriptor, read again.
    DescriptorAgain,
}

impl PackedQueueGetWork {
    /// The position lies in the ring.
    pub open spec fn wf(self) -> bool {
        self.next_avail_index < self.queue_size
    }

    /// The request that turns events on or off.
    pub open spec fn events_request(self, flags: EventSuppressionFlags) -> Request {
        Request::Write {
            region: Region::DeviceEvent,
            offset: 0,
            value: Plain::U32(PackedEventSuppresion { bits: 0 }.with_flags(flags).bits),
        }
    }

    /// The request whose reply the search waits for at `at`.
    pub open spec fn request_at(self, at: PackedAvailable) -> Request {
        match at {
            PackedAvailable::Disable => self.events_request(EventSuppressionFlags::Disabled),
            PackedAvailable::DisableFence => Request::Fence(Fence::Acquire),
            PackedAvailable::Descriptor => descriptor::entry_request(
                Region::PackedRing,
                self.next_avail_index,
            ),
            PackedAvailable::Enable => self.events_request(EventSuppressionFlags::Enabled),
            PackedAvailable::EnableFence => Request::Fence(Fence::SeqCst),
            PackedAvailable::DescriptorAgain => descriptor::entry_request(
                Region::PackedRing,
                self.next_avail_index,
            ),
        }
    }

    /// The search waits at `at`.
    pub open spec fn wait<E>(self, at: PackedAvailable) -> Step<PackedAvailable, Option<u16>, E> {
        Step::Wait { at, request: self.request_at(at) }
    }

    /// What the search does on the reply at `at`. There is work where the next
    /// descriptor is ready; where it is not, events are turned on and it is
    /// read again; where it is ready by then, the search begins anew.
    pub open spec fn is_available_resume<E>(
        self,
        at: PackedAvailable,
        reply: Result<Seq<u8>, E>,
    ) -> Step<PackedAvailable, Option<u16>, E> {
        match reply {
            Err(e) => Step::Done(Err(QueueError::Memory(e))),
            Ok(data) => {
                let is_ready = ready(PackedDescriptor::of_bytes(data).flags, self.wrapped_bit);
                match at {
                    PackedAvailable::Disable => self.wait(PackedAvailable::DisableFence),
                    PackedAvailable::DisableFence => self.wait(PackedAvailable::Descriptor),
                    PackedAvailable::Descriptor => if is_ready {
                        Step::Done(Ok(Some(self.next_avail_index)))
                    } else {
                        self.wait(PackedAvailable::Enable)
                    },
                    PackedAvailable::Enable => self.wait(PackedAvailable::EnableFence),
                    PackedAvailable::EnableFence => self.wait(PackedAvailable::DescriptorAgain),
                    PackedAvailable::DescriptorAgain => if is_ready {
                        self.wait(PackedAvailable::Disable)
                    } else {
                        Step::Done(Ok(None))
                    },
                }
            },
        }
    }

    /// Where the search stands after the replies in order.
    pub open spec fn is_available_run<E>(self, replies: Seq<Result<Seq<u8>, E>>) -> Step<
        PackedAvailable,
        Option<u16>,
        E,
    > {
        memory::run(
            self,
            self.wait::<E>(PackedAvailable::Disable),
            |queue: Self, at: PackedAvailable, reply: Result<Seq<u8>, E>|
                (queue, queue.is_available_resume(at, reply)),
            replies,
        ).1
    }

    /// The requests that the search has made after the replies in order.
    pub open spec fn is_available_requests<E>(self, replies: Seq<Result<Seq<u8>, E>>) -> Seq<
        Request,
    > {
        memory::requests(
            self,
            self.wait::<E>(PackedAvailable::Disable),
            |queue: Self, at: PackedAvailable, reply: Result<Seq<u8>, E>|
                (queue, queue.is_available_resume(at, reply)),
            replies,
        )
    }

    /// The queue after `count` descriptors from `wrapped_index` on have been
    /// taken.
    pub open spec fn consumed(self, wrapped_index: u16, count: u16) -> Self {
        let (next, bit) = advanced(
            self.queue_size,
            wrapped_index,
            count,
            self.next_avail_index,
            self.wrapped_bit,
        );
        PackedQueueGetWork { next_avail_index: next, wrapped_bit: bit, ..self }
    }

    /// Makes the half of a packed queue that gets work. Its event suppression
    /// structure follows the ring.
    pub fn new<E>(
        features: VirtioDeviceFeatures,
        params: QueueParams,
        event: Event<PackedSetup, E>,
    ) -> (step: Step<PackedSetup, Self, E>)
        requires
            event_suppression_in_space(params, 0, event),
        ensures
            step == packed_setup(
                params,
                Region::DeviceEvent,
                0,
                event,
                (PackedQueueGetWork {
                    queue_size: params.size,
                    next_avail_index: 0,
                    _use_event_index: features.bank0().ring_event_idx(),
                    wrapped_bit: true,
                }),
            ),
    {
        match event {
            Event::Start => Step::Wait {
                at: PackedSetup::Ring,
                request: Request::Subrange {
                    region: Region::PackedRing,
                    addr: params.desc_addr,
                    len: descriptor::descriptor_offset(params.size),
                },
            },
            Event::Reply { at, reply } => {
                if let Err(e) = reply {
                    return Step::Done(Err(QueueError::Memory(e)));
                }
                match at {
                    PackedSetup::Ring => Step::Wait {
                        at: PackedSetup::EventSuppression,
                        request: Request::Subrange {
                            region: Region::DeviceEvent,
                            addr: params.desc_addr + descriptor::descriptor_offset(params.size),
                            len: EVENT_SUPPRESSION_SIZE,
                        },
                    },
                    PackedSetup::EventSuppression => Step::Done(
                        Ok(
                            PackedQueueGetWork {
                                queue_size: params.size,
                                next_avail_index: 0,
                                _use_event_index: features.bank0().ring_event_idx(),
                                wrapped_bit: true,
                            },
                        ),
                    ),
                }
            },
        }
    }

    fn set_events(&self, flags: EventSuppressionFlags) -> (request: Request)
        ensures
            request == self.events_request(flags),
    {
        Request::Write {
            region: Region::DeviceEvent,
            offset: 0,
            value: Plain::U32(PackedEventSuppresion::new().with_flags(flags).bits),
        }
    }

    fn is_ready(&self, data: &Vec<u8>) -> (is_ready: bool)
        requires
            data@.len() == DESCRIPTOR_SIZE,
        ensures
            is_ready == ready(PackedDescriptor::of_bytes(data@).flags, self.wrapped_bit),
    {
        let flags = PackedDescriptor::read(data).flags;
        flags.available() == self.wrapped_bit && flags.used() != self.wrapped_bit
    }

    /// Looks for available work: the result is its position in the ring.
    pub fn is_available<E>(&self, event: Event<PackedAvailable, E>) -> (step: Step<
        PackedAvailable,
        Option<u16>,
        E,
    >)
        requires
            event matches Event::Reply { at, reply } ==> memory::answers(
                self.request_at(at),
                memory::reply_view(reply),
            ),
        ensures
            match event {
                Event::Start => step == self.wait::<E>(PackedAvailable::Disable),
                Event::Reply { at, reply } => step == self.is_available_resume(
                    at,
                    memory::reply_view(reply),
                ),
            },
            step matches Step::Wait { at, request } ==> request == self.request_at(at),
            step matches Step::Done(Ok(Some(index))) ==> index == self.next_avail_index,
    {
        match event {
            Event::Start => Step::Wait {
                at: PackedAvailable::Disable,
                request: self.set_events(EventSuppressionFlags::Disabled),
            },
            Event::Reply { at, reply } => {
                let data = match reply {
                    Ok(data) => data,
                    Err(e) => {
                        return Step::Done(Err(QueueError::Memory(e)));
                    },
                };
                match at {
                    PackedAvailable::Disable => Step::Wait {
                        at: PackedAvailable::DisableFence,
                        request: Request::Fence(Fence::Acquire),
                    },
                    PackedAvailable::DisableFence => Step::Wait {
                        at: PackedAvailable::Descriptor,
                        request: read_descriptor(Region::PackedRing, self.next_avail_index),
                    },
                    PackedAvailable::Descriptor => {
                        if self.is_ready(&data) {
                            Step::Done(Ok(Some(self.next_avail_index)))
                        } else {
                            Step::Wait {
                                at: PackedAvailable::Enable,
                                request: self.set_events(EventSuppressionFlags::Enabled),
                            }
                        }
                    },
                    PackedAvailable::Enable => Step::Wait {
                        at: PackedAvailable::EnableFence,
                        request: Request::Fence(Fence::SeqCst),
                    },
                    PackedAvailable::EnableFence => Step::Wait {
                        at: PackedAvailable::DescriptorAgain,
                        request: read_descriptor(Region::PackedRing, self.next_avail_index),
                    },
                    PackedAvailable::DescriptorAgain => {
                        if self.is_ready(&data) {
                            Step::Wait {
                                at: PackedAvailable::Disable,
                                request: self.set_events(EventSuppressionFlags::Disabled),
                            }
                        } else {
                            Step::Done(Ok(None))
                        }
                    },
                }
            },
        }
    }

    /// Takes `count` descriptors from the ring position `wrapped_index` on,
    /// the last of which is `last_descriptor`.
    pub fn consume_next_available_descriptors(
        &mut self,
        wrapped_index: u16,
        count: u16,
        last_descriptor: QueueDescriptor,
    ) -> (context: PackedQueueCompletionContext)
        requires
            old(self).queue_size > 0,
            wrapped_index + count <= u16::MAX,
            last_descriptor.buffer_id is Some,
        ensures
            context == (PackedQueueCompletionContext {
                descriptor_index: wrapped_index,
                buffer_id: last_descriptor.buffer_id->0,
                descriptor_count: count,
            }),
            *final(self) == old(self).consumed(wrapped_index, count),
            final(self).wf(),
    {
        let completion_context = PackedQueueCompletionContext {
            descriptor_index: wrapped_index,
            buffer_id: last_descriptor.buffer_id.unwrap(),
            descriptor_count: count,
        };
        let next_avail_index: u16 = (wrapped_index + count) % self.queue_size;
        if next_avail_index < self.next_avail_index {
            self.wrapped_bit = !self.wrapped_bit;
        }
        self.next_avail_index = next_avail_index;
        completion_context
    }
}

/// The half of a packed queue that completes work.
#[derive(Debug, Clone, Copy, PartialEq, Eq)]
pub struct PackedQueueCompleteWork {
    pub queue_size: u16,
    /// The ring position of the next used descriptor.
    pub next_index: u16,
    /// The wrap counter of that position.
    pub wrapped_bit: bool,
    pub use_event_index: bool,
}

/// Where the completion of a piece of work waits.
#[derive(Debug, Clone, Copy, PartialEq, Eq)]
pub enum PackedCompletion {
    /// For the used descriptor to be written.
    Descriptor,
    /// For the fence after it.
    DescriptorFence,
    /// For the driver's event suppression structure.
    Interest,
}

impl PackedQueueCompleteWork {
    /// The position lies in the ring.
    pub open spec fn wf(self) -> bool {
        self.next_index < self.queue_size
    }

    /// The descriptor that marks a piece of work as used.
    pub open spec fn used_descriptor(
        self,
        context: PackedQueueCompletionContext,
        bytes_written: u32,
    ) -> PackedDescriptor {
        PackedDescriptor {
            address: 0,
            length: bytes_written,
            buffer_id: context.buffer_id,
            flags: DescriptorFlags { bits: 0 }.with_available(self.wrapped_bit).with_used(
                self.wrapped_bit,
            ),
        }
    }

    /// The request whose reply the completion waits for at `at`.
    pub open spec fn request_at(
        self,
        context: PackedQueueCompletionContext,
        bytes_written: u32,
        at: PackedCompletion,
    ) -> Request {
        match at {
            PackedCompletion::Descriptor => Request::Write {
                region: Region::PackedRing,
                offset: (DESCRIPTOR_SIZE * self.next_index) as u64,
                value: Plain::PackedDescriptor(self.used_descriptor(context, bytes_written)),
            },
            PackedCompletion::DescriptorFence => Request::Fence(Fence::SeqCst),
            PackedCompletion::Interest => Request::Read {
                region: Region::DriverEvent,
                offset: 0,
                len: EVENT_SUPPRESSION_SIZE,
            },
        }
    }

    /// Whether the driver is to be told of the descriptor that has been used.
    pub open spec fn signals(self, driver_event: PackedEventSuppresion) -> bool {
        match driver_event.flags() {
            EventSuppressionFlags::Disabled => false,
            EventSuppressionFlags::DescriptorIndex => self.use_event_index ==> {
                driver_event.offset() == self.next_index && driver_event.wrap() == self.wrapped_bit
            },
            _ => true,
        }
    }

    /// The queue after `count` descriptors have been used.
    pub open spec fn completed(self, count: u16) -> Self {
        let (next, bit) = advanced(
            self.queue_size,
            self.next_index,
            count,
            self.next_index,
            self.wrapped_bit,
        );
        PackedQueueCompleteWork { next_index: next, wrapped_bit: bit, ..self }
    }

    /// What the completion does on the reply at `at`.
    pub open spec fn complete_resume<E>(
        self,
        context: PackedQueueCompletionContext,
        bytes_written: u32,
        at: PackedCompletion,
        reply: Result<Seq<u8>, E>,
    ) -> (Self, Step<PackedCompletion, bool, E>) {
        match reply {
            Err(e) => (self, Step::Done(Err(QueueError::Memory(e)))),
            Ok(data) => match at {
                PackedCompletion::Descriptor => (
                    self,
                    Step::Wait {
                        at: PackedCompletion::DescriptorFence,
                        request: self.request_at(
                            context,
                            bytes_written,
                            PackedCompletion::DescriptorFence,
                        ),
                    },
                ),
                PackedCompletion::DescriptorFence => (
                    self,
                    Step::Wait {
                        at: PackedCompletion::Interest,
                        request: self.request_at(
                            context,
                            bytes_written,
                            PackedCompletion::Interest,
                        ),
                    },
                ),
                PackedCompletion::Interest => (
                    self.completed(context.descriptor_count),
                    Step::Done(
                        Ok(self.signals(PackedEventSuppresion { bits: le::le_u32(data) })),
                    ),
                ),
            },
        }
    }

    /// What the completion does first.
    pub open spec fn complete_start<E>(
        self,
        context: PackedQueueCompletionContext,
        bytes_written: u32,
    ) -> Step<PackedCompletion, bool, E> {
        Step::Wait {
            at: PackedCompletion::Descriptor,
            request: self.request_at(context, bytes_written, PackedCompletion::Descriptor),
        }
    }

    /// Where the completion stands after the replies in order.
    pub open spec fn complete_run<E>(
        self,
        context: PackedQueueCompletionContext,
        bytes_written: u32,
        replies: Seq<Result<Seq<u8>, E>>,
    ) -> (Self, Step<PackedCompletion, bool, E>) {
        memory::run(
            self,
            self.complete_start::<E>(context, bytes_written),
            |queue: Self, at: PackedCompletion, reply: Result<Seq<u8>, E>|
                queue.complete_resume(context, bytes_written, at, reply),
            replies,
        )
    }

    /// The requests that the completion has made after the replies in order.
    pub open spec fn complete_requests<E>(
        self,
        context: PackedQueueCompletionContext,
        bytes_written: u32,
        replies: Seq<Result<Seq<u8>, E>>,
    ) -> Seq<Request> {
        memory::requests(
            self,
            self.complete_start::<E>(context, bytes_written),
            |queue: Self, at: PackedCompletion, reply: Result<Seq<u8>, E>|
                queue.complete_resume(context, bytes_written, at, reply),
            replies,
        )
    }

    /// Makes the half of a packed queue that completes work. The driver's event
    /// suppression structure follows that of the device.
    pub fn new<E>(
        features: VirtioDeviceFeatures,
        params: QueueParams,
        event: Event<PackedSetup, E>,
    ) -> (step: Step<PackedSetup, Self, E>)
        requires
            event_suppression_in_space(params, EVENT_SUPPRESSION_SIZE as int, event),
        ensures
            step == packed_setup(
                params,
                Region::DriverEvent,
                EVENT_SUPPRESSION_SIZE as int,
                event,
                (PackedQueueCompleteWork {
                    queue_size: params.size,
                    next_index: 0,
                    wrapped_bit: true,
                    use_event_index: features.bank0().ring_event_idx(),
                }),
            ),
    {
        match event {
            Event::Start => Step::Wait {
                at: PackedSetup::Ring,
                request: Request::Subrange {
                    region: Region::PackedRing,
                    addr: params.desc_addr,
                    len: descriptor::descriptor_offset(params.size),
                },
            },
            Event::Reply { at, reply } => {
                if let Err(e) = reply {
                    return Step::Done(Err(QueueError::Memory(e)));
                }
                match at {
                    PackedSetup::Ring => Step::Wait {
                        at: PackedSetup::EventSuppression,
                        request: Request::Subrange {
                            region: Region::DriverEvent,
                            addr: params.desc_addr + descriptor::descriptor_offset(params.size)
                                + EVENT_SUPPRESSION_SIZE,
                            len: EVENT_SUPPRESSION_SIZE,
                        },
                    },
                    PackedSetup::EventSuppression => Step::Done(
                        Ok(
                            PackedQueueCompleteWork {
                                queue_size: params.size,
                                next_index: 0,
                                wrapped_bit: true,
                                use_event_index: features.bank0().ring_event_idx(),
                            },
                        ),
                    ),
                }
            },
        }
    }

    /// Completes a piece of work: the result says whether the driver is to be
    /// told.
    pub fn complete_descriptor<E>(
        &mut self,
        context: &PackedQueueCompletionContext,
        bytes_written: u32,
        event: Event<PackedCompletion, E>,
    ) -> (step: Step<PackedCompletion, bool, E>)
        requires
            event matches Event::Reply { at, reply } ==> {
                &&& memory::answers(
                    old(self).request_at(*context, bytes_written, at),
                    memory::reply_view(reply),
                )
                &&& at is Interest && reply is Ok ==> {
                    &&& old(self).queue_size > 0
                    &&& old(self).next_index + context.descriptor_count <= u16::MAX
                }
            },
        ensures
            match event {
                Event::Start => *final(self) == *old(self) && step == old(
                    self,
                ).complete_start::<E>(*context, bytes_written),
                Event::Reply { at, reply } => (*final(self), step) == old(self).complete_resume(
                    *context,
                    bytes_written,
                    at,
                    memory::reply_view(reply),
                ),
            },
            old(self).wf() ==> final(self).wf(),
            step matches Step::Wait { at, request } ==> request == final(self).request_at(
                *context,
                bytes_written,
                at,
            ),
    {
        match event {
            Event::Start => {
                let descriptor = PackedDescriptor {
                    address: 0,
                    length: bytes_written,
                    buffer_id: context.buffer_id,
                    flags: DescriptorFlags::new().with_available(self.wrapped_bit).with_used(
                        self.wrapped_bit,
                    ),
                };
                Step::Wait {
                    at: PackedCompletion::Descriptor,
                    request: Request::Write {
                        region: Region::PackedRing,
                        offset: descriptor::descriptor_offset(self.next_index),
                        value: Plain::PackedDescriptor(descriptor),
                    },
                }
            },
            Event::Reply { at, reply } => {
                let data = match reply {
                    Ok(data) => data,
                    Err(e) => {
                        return Step::Done(Err(QueueError::Memory(e)));
                    },
                };
                match at {
                    // Ensure the descriptor update is visible before checking
                    // if the guest requires notification.
                    PackedCompletion::Descriptor => Step::Wait {
                        at: PackedCompletion::DescriptorFence,
                        request: Request::Fence(Fence::SeqCst),
                    },
                    PackedCompletion::DescriptorFence => Step::Wait {
                        at: PackedCompletion::Interest,
                        request: Request::Read {
                            region: Region::DriverEvent,
                            offset: 0,
                            len: EVENT_SUPPRESSION_SIZE,
                        },
                    },
                    PackedCompletion::Interest => {
                        assert(data@.subrange(0, 4) =~= data@);
                        let driver_event = PackedEventSuppresion { bits: le::read_u32(&data, 0) };
                        let send_signal = match driver_event.flags() {
                            EventSuppressionFlags::Disabled => false,
                            EventSuppressionFlags::DescriptorIndex => if self.use_event_index {
                                driver_event.offset() == self.next_index && driver_event.wrap()
                                    == self.wrapped_bit
                            } else {
                                true
                            },
                            _ => true,
                        };
                        let next_index: u16 = (self.next_index + context.descriptor_count)
                            % self.queue_size;
                        if next_index < self.next_index {
                            self.wrapped_bit = !self.wrapped_bit;
                        }
                        self.next_index = next_index;
                        Step::Done(Ok(send_signal))
                    },
                }
            },
        }
    }
}

} // verus!
