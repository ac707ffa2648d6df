//! The half of a queue that completes work.

use crate::layout::{VirtioDeviceFeatures, EVENT_SUPPRESSION_SIZE};
use crate::memory;
use crate::memory::{Event, QueueError, Region, Request, Step};
use crate::packed;
use crate::packed::{
    PackedCompletion, PackedQueueCompleteWork, PackedQueueCompletionContext, PackedSetup,
};
use crate::queue::{QueueCompletionContext, QueueParams, QueueWork};
use crate::split;
use crate::split::{
    SplitCompletion, SplitQueueCompleteWork, SplitQueueCompletionContext, SplitSetup,
};
use vstd::prelude::*;

verus! {

/// The half of a queue that completes work, by its layout.
#[derive(Debug, Clone, Copy, PartialEq, Eq)]
pub enum QueueCompleteWorkInner {
    Split(SplitQueueCompleteWork),
    Packed(PackedQueueCompleteWork),
}

/// The half of a queue that completes work.
#[derive(Debug, Clone, Copy, PartialEq, Eq)]
pub struct QueueCoreCompleteWork {
    pub inner: QueueCompleteWorkInner,
}

/// Where the making of the half that completes work waits.
#[derive(Debug, Clone, Copy, PartialEq, Eq)]
pub enum CompleteWorkSetup {
    /// For the rings of a split queue.
    Split(SplitSetup),
    /// For the ring and the event suppression structure of a packed queue.
    Packed(PackedSetup),
}

/// Where the completion of a piece of work waits.
#[derive(Debug, Clone, Copy, PartialEq, Eq)]
pub enum Completion {
    Split(SplitCompletion),
    Packed(PackedCompletion),
}

impl QueueCoreCompleteWork {
    /// The half for the layout is in order in its turn.
    pub open spec fn wf(self) -> bool {
        match self.inner {
            QueueCompleteWorkInner::Split(split) => split.wf(),
            QueueCompleteWorkInner::Packed(packed) => packed.wf(),
        }
    }

    /// The half that completes work as it is made.
    pub open spec fn made(features: VirtioDeviceFeatures, params: QueueParams) -> Self {
        QueueCoreCompleteWork {
            inner: if features.bank1().ring_packed() {
                QueueCompleteWorkInner::Packed(
                    PackedQueueCompleteWork {
                        queue_size: params.size,
                        next_index: 0,
                        wrapped_bit: true,
                        use_event_index: features.bank0().ring_event_idx(),
                    },
                )
            } else {
                QueueCompleteWorkInner::Split(
                    SplitQueueCompleteWork {
                        queue_size: params.size,
                        last_used_index: 0,
                        use_ring_event_index: features.bank0().ring_event_idx(),
                    },
                )
            },
        }
    }

    /// What the making takes first.
    pub open spec fn setup_first(features: VirtioDeviceFeatures) -> CompleteWorkSetup {
        if features.bank1().ring_packed() {
            CompleteWorkSetup::Packed(PackedSetup::Ring)
        } else {
            CompleteWorkSetup::Split(SplitSetup::Available)
        }
    }

    /// What is taken after what was taken at `at`, if anything is.
    pub open spec fn setup_after(at: CompleteWorkSetup) -> Option<CompleteWorkSetup> {
        match at {
            CompleteWorkSetup::Split(SplitSetup::Available) => Some(
                CompleteWorkSetup::Split(SplitSetup::Used),
            ),
            CompleteWorkSetup::Packed(PackedSetup::Ring) => Some(
                CompleteWorkSetup::Packed(PackedSetup::EventSuppression),
            ),
            _ => None,
        }
    }

    /// The request whose reply the making waits for at `at`.
    pub open spec fn setup_request(params: QueueParams, at: CompleteWorkSetup) -> Request {
        match at {
            CompleteWorkSetup::Split(at) => split::split_setup_request(params, at),
            CompleteWorkSetup::Packed(at) => packed::packed_setup_request(
                params,
                Region::DriverEvent,
                EVENT_SUPPRESSION_SIZE as int,
                at,
            ),
        }
    }

    /// What the making of the half that completes work does on an event: it
    /// takes what its layout needs.
    pub open spec fn setup<E>(
        features: VirtioDeviceFeatures,
        params: QueueParams,
        event: Event<CompleteWorkSetup, E>,
    ) -> Step<CompleteWorkSetup, Self, E> {
        match event {
            Event::Start => Step::Wait {
                at: Self::setup_first(features),
                request: Self::setup_request(params, Self::setup_first(features)),
            },
            Event::Reply { at, reply: Err(e) } => Step::Done(Err(QueueError::Memory(e))),
            Event::Reply { at, reply: Ok(_) } => match Self::setup_after(at) {
                Some(next) => Step::Wait { at: next, request: Self::setup_request(params, next) },
                None => Step::Done(Ok(Self::made(features, params))),
            },
        }
    }

    /// Whether the making can wait at `at`.
    pub open spec fn setup_waits_at(
        features: VirtioDeviceFeatures,
        at: CompleteWorkSetup,
    ) -> bool {
        at is Packed <==> features.bank1().ring_packed()
    }

    /// Whether, once the ring of a packed queue has been granted, the address
    /// of the driver's event suppression structure can be told.
    pub open spec fn setup_in_space<E>(
        params: QueueParams,
        event: Event<CompleteWorkSetup, E>,
    ) -> bool {
        event matches Event::Reply { at: CompleteWorkSetup::Packed(at), reply }
            ==> packed::event_suppression_in_space(
            params,
            EVENT_SUPPRESSION_SIZE as int,
            Event::Reply { at, reply },
        )
    }

    fn split_setup_step<E>(
        features: VirtioDeviceFeatures,
        params: QueueParams,
        event: Event<SplitSetup, E>,
    ) -> (step: Step<CompleteWorkSetup, Self, E>)
        requires
            !features.bank1().ring_packed(),
        ensures
            match event {
                Event::Start => step == Self::setup::<E>(features, params, Event::Start),
                Event::Reply { at, reply } => step == Self::setup(
                    features,
                    params,
                    Event::Reply { at: CompleteWorkSetup::Split(at), reply },
                ),
            },
    {
        match SplitQueueCompleteWork::new(features, params, event) {
            Step::Wait { at, request } => Step::Wait { at: CompleteWorkSetup::Split(at), request },
            Step::Done(Ok(split)) => Step::Done(
                Ok(QueueCoreCompleteWork { inner: QueueCompleteWorkInner::Split(split) }),
            ),
            Step::Done(Err(e)) => Step::Done(Err(e)),
        }
    }

    fn packed_setup_step<E>(
        features: VirtioDeviceFeatures,
        params: QueueParams,
        event: Event<PackedSetup, E>,
    ) -> (step: Step<CompleteWorkSetup, Self, E>)
        requires
            features.bank1().ring_packed(),
            packed::event_suppression_in_space(params, EVENT_SUPPRESSION_SIZE as int, event),
        ensures
            match event {
                Event::Start => step == Self::setup::<E>(features, params, Event::Start),
                Event::Reply { at, reply } => step == Self::setup(
                    features,
                    params,
                    Event::Reply { at: CompleteWorkSetup::Packed(at), reply },
                ),
            },
    {
        match PackedQueueCompleteWork::new(features, params, event) {
            Step::Wait { at, request } => Step::Wait { at: CompleteWorkSetup::Packed(at), request },
            Step::Done(Ok(packed)) => Step::Done(
                Ok(QueueCoreCompleteWork { inner: QueueCompleteWorkInner::Packed(packed) }),
            ),
            Step::Done(Err(e)) => Step::Done(Err(e)),
        }
    }

    /// Makes the half of a queue that completes work.
    pub fn new<E>(
        features: VirtioDeviceFeatures,
        params: QueueParams,
        event: Event<CompleteWorkSetup, E>,
    ) -> (step: Step<CompleteWorkSetup, Self, E>)
        requires
            event matches Event::Reply { at, reply } ==> Self::setup_waits_at(features, at),
            Self::setup_in_space(params, event),
        ensures
            step == Self::setup(features, params, event),
            step matches Step::Wait { at, request } ==> {
                &&& Self::setup_waits_at(features, at)
                &&& request == Self::setup_request(params, at)
            },
            step matches Step::Done(Ok(queue)) ==> params.size > 0 ==> queue.wf(),
    {
        match event {
            Event::Start => {
                if features.bank1().ring_packed() {
                    Self::packed_setup_step(features, params, Event::Start)
                } else {
                    Self::split_setup_step(features, params, Event::Start)
                }
            },
            Event::Reply { at: CompleteWorkSetup::Split(at), reply } => Self::split_setup_step(
                features,
                params,
                Event::Reply { at, reply },
            ),
            Event::Reply { at: CompleteWorkSetup::Packed(at), reply } => Self::packed_setup_step(
                features,
                params,
                Event::Reply { at, reply },
            ),
        }
    }

    /// Whether the queue has the layout of the work that it is to complete.
    pub open spec fn matches_work(self, context: QueueCompletionContext) -> bool {
        self.inner is Split <==> context is Split
    }

    /// The request whose reply the completion waits for at `at`.
    pub open spec fn request_at(
        self,
        context: QueueCompletionContext,
        bytes_written: u32,
        at: Completion,
    ) -> Request {
        match at {
            Completion::Split(at) => self.inner->Split_0.request_at(
                context->Split_0,
                bytes_written,
                at,
            ),
            Completion::Packed(at) => self.inner->Packed_0.request_at(
                context->Packed_0,
                bytes_written,
                at,
            ),
        }
    }

    /// Whether the completion can wait at `at`.
    pub open spec fn waits_at(self, at: Completion) -> bool {
        self.inner is Split <==> at is Split
    }

    /// Whether the ring has a position for the descriptors after those of the
    /// work, where the reply ends the completion.
    pub open spec fn can_advance<E>(
        self,
        context: QueueCompletionContext,
        at: Completion,
        reply: Result<Seq<u8>, E>,
    ) -> bool {
        at == Completion::Packed(PackedCompletion::Interest) && reply is Ok ==> {
            &&& self.inner->Packed_0.queue_size > 0
            &&& self.inner->Packed_0.next_index + context->Packed_0.descriptor_count <= u16::MAX
        }
    }

    /// What the completion does first.
    pub open spec fn complete_start<E>(
        self,
        context: QueueCompletionContext,
        bytes_written: u32,
    ) -> Step<Completion, bool, E> {
        let at = match self.inner {
            QueueCompleteWorkInner::Split(_) => Completion::Split(SplitCompletion::Element),
            QueueCompleteWorkInner::Packed(_) => Completion::Packed(PackedCompletion::Descriptor),
        };
        Step::Wait { at, request: self.request_at(context, bytes_written, at) }
    }

    /// What the completion does on the reply at `at`.
    pub open spec fn complete_resume<E>(
        self,
        context: QueueCompletionContext,
        bytes_written: u32,
        at: Completion,
        reply: Result<Seq<u8>, E>,
    ) -> (Self, Step<Completion, bool, E>) {
        match at {
            Completion::Split(at) => {
                let (split, step) = self.inner->Split_0.complete_resume(
                    context->Split_0,
                    bytes_written,
                    at,
                    reply,
                );
                let queue = QueueCoreCompleteWork { inner: QueueCompleteWorkInner::Split(split) };
                match step {
                    Step::Wait { at, request } => (
                        queue,
                        Step::Wait { at: Completion::Split(at), request },
                    ),
                    Step::Done(result) => (queue, Step::Done(result)),
                }
            },
            Completion::Packed(at) => {
                let (packed, step) = self.inner->Packed_0.complete_resume(
                    context->Packed_0,
                    bytes_written,
                    at,
                    reply,
                );
                let queue = QueueCoreCompleteWork { inner: QueueCompleteWorkInner::Packed(packed) };
                match step {
                    Step::Wait { at, request } => (
                        queue,
                        Step::Wait { at: Completion::Packed(at), request },
                    ),
                    Step::Done(result) => (queue, Step::Done(result)),
                }
            },
        }
    }

    fn split_step<E>(
        split: &mut SplitQueueCompleteWork,
        context: &SplitQueueCompletionContext,
        bytes_written: u32,
        event: Event<SplitCompletion, E>,
    ) -> (step: Step<Completion, bool, E>)
        requires
            old(split).wf(),
            event matches Event::Reply { at, reply } ==> memory::answers(
                old(split).request_at(*context, bytes_written, at),
                memory::reply_view(reply),
            ),
        ensures
            final(split).wf(),
            ({
                let before = QueueCoreCompleteWork {
                    inner: QueueCompleteWorkInner::Split(*old(split)),
                };
                let after = QueueCoreCompleteWork {
                    inner: QueueCompleteWorkInner::Split(*final(split)),
                };
                let context = QueueCompletionContext::Split(*context);
                &&& match event {
                    Event::Start => after == before && step == before.complete_start::<E>(
                        context,
                        bytes_written,
                    ),
                    Event::Reply { at, reply } => (after, step) == before.complete_resume(
                        context,
                        bytes_written,
                        Completion::Split(at),
                        memory::reply_view(reply),
                    ),
                }
                &&& step matches Step::Wait { at, request } ==> after.waits_at(at) && request
                    == after.request_at(context, bytes_written, at)
            }),
    {
        match split.complete_descriptor(context, bytes_written, event) {
            Step::Wait { at, request } => Step::Wait { at: Completion::Split(at), request },
            Step::Done(result) => Step::Done(result),
        }
    }

    fn packed_step<E>(
        packed: &mut PackedQueueCompleteWork,
        context: &PackedQueueCompletionContext,
        bytes_written: u32,
        event: Event<PackedCompletion, E>,
    ) -> (step: Step<Completion, bool, E>)
        requires
            event matches Event::Reply { at, reply } ==> {
                &&& memory::answers(
                    old(packed).request_at(*context, bytes_written, at),
                    memory::reply_view(reply),
                )
                &&& at is Interest && reply is Ok ==> {
                    &&& old(packed).queue_size > 0
                    &&& old(packed).next_index + context.descriptor_count <= u16::MAX
                }
            },
        ensures
            old(packed).wf() ==> final(packed).wf(),
            ({
                let before = QueueCoreCompleteWork {
                    inner: QueueCompleteWorkInner::Packed(*old(packed)),
                };
                let after = QueueCoreCompleteWork {
                    inner: QueueCompleteWorkInner::Packed(*final(packed)),
                };
                let context = QueueCompletionContext::Packed(*context);
                &&& match event {
                    Event::Start => after == before && step == before.complete_start::<E>(
                        context,
                        bytes_written,
                    ),
                    Event::Reply { at, reply } => (after, step) == before.complete_resume(
                        context,
                        bytes_written,
                        Completion::Packed(at),
                        memory::reply_view(reply),
                    ),
                }
                &&& step matches Step::Wait { at, request } ==> after.waits_at(at) && request
                    == after.request_at(context, bytes_written, at)
            }),
    {
        match packed.complete_descriptor(context, bytes_written, event) {
            Step::Wait { at, request } => Step::Wait { at: Completion::Packed(at), request },
            Step::Done(result) => Step::Done(result),
        }
    }

    /// Whether the completion can go on with the reply to `request` at `at`:
    /// guest memory can have given it, and, where it ends the completion, the
    /// ring has a position for what follows.
    pub fn accepts<E>(
        &self,
        work: &QueueWork,
        bytes_written: u32,
        at: &Completion,
        request: &Request,
        reply: &Result<Vec<u8>, E>,
    ) -> (accepts: bool)
        requires
            self.matches_work(work.context),
            self.waits_at(*at),
            *request == self.request_at(work.context, bytes_written, *at),
        ensures
            accepts == (memory::answers(*request, memory::reply_view(*reply)) && self.can_advance(
                work.context,
                *at,
                memory::reply_view(*reply),
            )),
    {
        if !memory::is_answer(request, reply) {
            return false;
        }
        match (&self.inner, &work.context, at, reply) {
            (
                QueueCompleteWorkInner::Packed(packed),
                QueueCompletionContext::Packed(context),
                Completion::Packed(PackedCompletion::Interest),
                Ok(_),
            ) => packed.queue_size > 0 && packed.next_index <= u16::MAX - context.descriptor_count,
            _ => true,
        }
    }

    /// Completes a piece of work, of which `bytes_written` bytes were written:
    /// the result says whether the driver is to be told.
    pub fn complete_descriptor<E>(
        &mut self,
        work: &QueueWork,
        bytes_written: u32,
        event: Event<Completion, E>,
    ) -> (step: Step<Completion, bool, E>)
        requires
            old(self).matches_work(work.context),
            old(self).inner is Split ==> old(self).wf(),
            event matches Event::Reply { at, reply } ==> {
                &&& old(self).waits_at(at)
                &&& memory::answers(
                    old(self).request_at(work.context, bytes_written, at),
                    memory::reply_view(reply),
                )
                &&& old(self).can_advance(work.context, at, memory::reply_view(reply))
            },
        ensures
            match event {
                Event::Start => *final(self) == *old(self) && step == old(
                    self,
                ).complete_start::<E>(work.context, bytes_written),
                Event::Reply { at, reply } => (*final(self), step) == old(self).complete_resume(
                    work.context,
                    bytes_written,
                    at,
                    memory::reply_view(reply),
                ),
            },
            old(self).wf() ==> final(self).wf(),
            final(self).matches_work(work.context),
            step matches Step::Wait { at, request } ==> {
                &&& final(self).waits_at(at)
                &&& request == final(self).request_at(work.context, bytes_written, at)
            },
    {
        match (&mut self.inner, &work.context) {
            (QueueCompleteWorkInner::Split(split), QueueCompletionContext::Split(context)) => {
                match event {
                    Event::Start => Self::split_step(split, context, bytes_written, Event::Start),
                    Event::Reply { at: Completion::Split(at), reply } => Self::split_step(
                        split,
                        context,
                        bytes_written,
                        Event::Reply { at, reply },
                    ),
                    _ => Step::Done(Ok(false)),
                }
            },
            (QueueCompleteWorkInner::Packed(packed), QueueCompletionContext::Packed(context)) => {
                match event {
                    Event::Start => Self::packed_step(packed, context, bytes_written, Event::Start),
                    Event::Reply { at: Completion::Packed(at), reply } => Self::packed_step(
                        packed,
                        context,
                        bytes_written,
                        Event::Reply { at, reply },
                    ),
                    _ => Step::Done(Ok(false)),
                }
            },
            _ => Step::Done(Ok(false)),
        }
    }
}

} // verus!
