//! A virtio queue, split or packed.

use crate::complete_work::{CompleteWorkSetup, QueueCoreCompleteWork};
use crate::descriptor::VirtioQueuePayload;
use crate::get_work::{GetWorkSetup, QueueCoreGetWork};
use crate::layout::{VirtioDeviceFeatures, DESCRIPTOR_SIZE, EVENT_SUPPRESSION_SIZE};
use crate::memory;
use crate::memory::{Event, Request, Step};
use crate::packed::PackedQueueCompletionContext;
use crate::split::SplitQueueCompletionContext;
use vstd::arithmetic::power2::is_pow2;
use vstd::prelude::*;

verus! {

/// How the driver has set a queue up.
#[derive(Debug, Clone, Copy, PartialEq, Eq)]
pub struct QueueParams {
    pub size: u16,
    pub enable: bool,
    pub desc_addr: u64,
    pub avail_addr: u64,
    pub used_addr: u64,
}

impl Default for QueueParams {
    /// A queue that has not been set up.
    fn default() -> (params: Self)
        ensures
            params == (QueueParams {
                size: 0,
                enable: false,
                desc_addr: 0,
                avail_addr: 0,
                used_addr: 0,
            }),
    {
        QueueParams { size: 0, enable: false, desc_addr: 0, avail_addr: 0, used_addr: 0 }
    }
}

/// What a queue needs in order to complete a piece of work.
#[derive(Debug, Clone, Copy, PartialEq, Eq)]
pub enum QueueCompletionContext {
    Split(SplitQueueCompletionContext),
    Packed(PackedQueueCompletionContext),
}

/// A piece of work that the driver has made available: the buffers of a
/// descriptor chain.
#[derive(Debug, PartialEq, Eq)]
pub struct QueueWork {
    pub context: QueueCompletionContext,
    pub payload: Vec<VirtioQueuePayload>,
}

/// A piece of work with its buffers as a sequence.
#[verifier::ext_equal]
pub struct QueueWorkView {
    pub context: QueueCompletionContext,
    pub payload: Seq<VirtioQueuePayload>,
}

impl View for QueueWork {
    type V = QueueWorkView;

    open spec fn view(&self) -> QueueWorkView {
        QueueWorkView { context: self.context, payload: self.payload@ }
    }
}

impl QueueWork {
    pub open spec fn spec_descriptor_index(&self) -> u16 {
        match self.context {
            QueueCompletionContext::Split(context) => context.descriptor_index,
            QueueCompletionContext::Packed(context) => context.descriptor_index,
        }
    }

    /// The index of the descriptor that the work begins with.
    #[verifier::when_used_as_spec(spec_descriptor_index)]
    pub fn descriptor_index(&self) -> (index: u16)
        ensures
            index == self.descriptor_index(),
    {
        match &self.context {
            QueueCompletionContext::Split(context) => context.descriptor_index,
            QueueCompletionContext::Packed(context) => context.descriptor_index,
        }
    }
}

/// Where the making of a queue waits.
#[derive(Debug, Clone, Copy, PartialEq, Eq)]
pub enum QueueSetup {
    /// Making the half that gets work.
    GetWork(GetWorkSetup),
    /// Making the half that completes work; the other is `get_work`.
    CompleteWork { get_work: QueueCoreGetWork, at: CompleteWorkSetup },
}

/// Whether the making of a queue can wait at `at`.
pub open spec fn queue_setup_waits_at(
    features: VirtioDeviceFeatures,
    params: QueueParams,
    at: QueueSetup,
) -> bool {
    match at {
        QueueSetup::GetWork(at) => QueueCoreGetWork::setup_waits_at(features, params, at),
        QueueSetup::CompleteWork { get_work, at } => {
            &&& is_pow2(params.size as int)
            &&& get_work == QueueCoreGetWork::made(features, params)
            &&& QueueCoreCompleteWork::setup_waits_at(features, at)
            &&& at is Packed ==> params.desc_addr + DESCRIPTOR_SIZE * params.size
                + EVENT_SUPPRESSION_SIZE <= u64::MAX
        },
    }
}

/// The request whose reply the making of a queue waits for at `at`.
pub open spec fn queue_setup_request(params: QueueParams, at: QueueSetup) -> Request {
    match at {
        QueueSetup::GetWork(at) => QueueCoreGetWork::setup_request(params, at),
        QueueSetup::CompleteWork { get_work, at } => QueueCoreCompleteWork::setup_request(
            params,
            at,
        ),
    }
}

/// What the making of a queue does on an event: it makes the half that gets
/// work, then the half that completes it.
pub open spec fn queue_setup<E>(
    features: VirtioDeviceFeatures,
    params: QueueParams,
    event: Event<QueueSetup, E>,
) -> Step<QueueSetup, (QueueCoreGetWork, QueueCoreCompleteWork), E> {
    match event {
        Event::Reply { at: QueueSetup::CompleteWork { get_work, at }, reply } => {
            match QueueCoreCompleteWork::setup(features, params, Event::Reply { at, reply }) {
                Step::Wait { at, request } => Step::Wait {
                    at: QueueSetup::CompleteWork { get_work, at },
                    request,
                },
                Step::Done(Ok(complete_work)) => Step::Done(Ok((get_work, complete_work))),
                Step::Done(Err(e)) => Step::Done(Err(e)),
            }
        },
        _ => {
            let event = match event {
                Event::Reply { at: QueueSetup::GetWork(at), reply } => Event::Reply { at, reply },
                _ => Event::Start,
            };
            match QueueCoreGetWork::setup(features, params, event) {
                Step::Wait { at, request } => Step::Wait { at: QueueSetup::GetWork(at), request },
                Step::Done(Ok(get_work)) => {
                    let at = QueueCoreCompleteWork::setup_first(features);
                    Step::Wait {
                        at: QueueSetup::CompleteWork { get_work, at },
                        request: QueueCoreCompleteWork::setup_request(params, at),
                    }
                },
                Step::Done(Err(e)) => Step::Done(Err(e)),
            }
        },
    }
}

fn get_work_setup_step<E>(
    features: VirtioDeviceFeatures,
    params: QueueParams,
    event: Event<GetWorkSetup, E>,
) -> (step: Step<QueueSetup, (QueueCoreGetWork, QueueCoreCompleteWork), E>)
    requires
        event matches Event::Reply { at, reply } ==> {
            &&& QueueCoreGetWork::setup_waits_at(features, params, at)
            &&& memory::answers(
                QueueCoreGetWork::setup_request(params, at),
                memory::reply_view(reply),
            )
        },
    ensures
        step == queue_setup(
            features,
            params,
            match event {
                Event::Start => Event::Start,
                Event::Reply { at, reply } => Event::Reply { at: QueueSetup::GetWork(at), reply },
            },
        ),
        step matches Step::Wait { at, request } ==> {
            &&& queue_setup_waits_at(features, params, at)
            &&& request == queue_setup_request(params, at)
        },
        step !is Wait ==> step matches Step::Done(Err(e)),
{
    match QueueCoreGetWork::new(features, params, event) {
        Step::Wait { at, request } => Step::Wait { at: QueueSetup::GetWork(at), request },
        Step::Done(Ok(get_work)) => match QueueCoreCompleteWork::new::<E>(
            features,
            params,
            Event::Start,
        ) {
            Step::Wait { at, request } => Step::Wait {
                at: QueueSetup::CompleteWork { get_work, at },
                request,
            },
            Step::Done(Ok(complete_work)) => Step::Done(Ok((get_work, complete_work))),
            Step::Done(Err(e)) => Step::Done(Err(e)),
        },
        Step::Done(Err(e)) => Step::Done(Err(e)),
    }
}

/// Makes both halves of a queue.
pub fn new_queue<E>(
    features: VirtioDeviceFeatures,
    params: QueueParams,
    event: Event<QueueSetup, E>,
) -> (step: Step<QueueSetup, (QueueCoreGetWork, QueueCoreCompleteWork), E>)
    requires
        event matches Event::Reply { at, reply } ==> {
            &&& queue_setup_waits_at(features, params, at)
            &&& memory::answers(queue_setup_request(params, at), memory::reply_view(reply))
        },
    ensures
        step == queue_setup(features, params, event),
        step matches Step::Wait { at, request } ==> {
            &&& queue_setup_waits_at(features, params, at)
            &&& request == queue_setup_request(params, at)
        },
        step matches Step::Done(Ok((get_work, complete_work))) ==> {
            &&& get_work.wf()
            &&& complete_work.wf()
        },
{
    match event {
        Event::Start => get_work_setup_step(features, params, Event::Start),
        Event::Reply { at: QueueSetup::GetWork(at), reply } => get_work_setup_step(
            features,
            params,
            Event::Reply { at, reply },
        ),
        Event::Reply { at: QueueSetup::CompleteWork { get_work, at }, reply } => {
            proof {
                reveal(is_pow2);
            }
            match QueueCoreCompleteWork::new(features, params, Event::Reply { at, reply }) {
                Step::Wait { at, request } => Step::Wait {
                    at: QueueSetup::CompleteWork { get_work, at },
                    request,
                },
                Step::Done(Ok(complete_work)) => Step::Done(Ok((get_work, complete_work))),
                Step::Done(Err(e)) => Step::Done(Err(e)),
            }
        },
    }
}

} // verus!
