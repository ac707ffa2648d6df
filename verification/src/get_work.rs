//! The half of a queue that gets work from its driver.

use crate::descriptor;
use crate::descriptor::{
    descriptor_offset, ChainAt, DescriptorChain, DescriptorReader, VirtioQueuePayload,
};
use crate::layout::{VirtioDeviceFeatures, DESCRIPTOR_SIZE};
use crate::le;
use crate::memory;
use crate::memory::{Event, QueueError, Region, Request, Step};
use crate::packed;
use crate::packed::{
    PackedAvailable, PackedQueueCompletionContext, PackedQueueGetWork, PackedSetup,
};
use crate::queue::{QueueCompletionContext, QueueParams, QueueWork, QueueWorkView};
use crate::split;
use crate::split::{SplitAvailable, SplitQueueCompletionContext, SplitQueueGetWork, SplitSetup};
use vstd::arithmetic::power2::is_pow2;
use vstd::prelude::*;

verus! {

/// The half of a queue that gets work, by its layout.
#[derive(Debug, Clone, Copy, PartialEq, Eq)]
pub enum QueueGetWorkInner {
    Split(SplitQueueGetWork),
    Packed(PackedQueueGetWork),
}

/// The half of a queue that gets work.
#[derive(Debug, Clone, Copy, PartialEq, Eq)]
pub struct QueueCoreGetWork {
    pub queue_size: u16,
    pub features: VirtioDeviceFeatures,
    pub inner: QueueGetWorkInner,
}

/// Where the making of the half that gets work waits.
#[derive(Debug, Clone, Copy, PartialEq, Eq)]
pub enum GetWorkSetup {
    /// For the table of descriptors.
    Descriptors,
    /// For the rings of a split queue.
    Split(SplitSetup),
    /// For the ring and the event suppression structure of a packed queue.
    Packed(PackedSetup),
}

/// Where the search for the next piece of work waits.
#[derive(Debug, PartialEq, Eq)]
pub enum NextWork {
    /// Looking for available work on a split queue.
    Split(SplitAvailable),
    /// For the element at `index` of the available ring.
    Element { index: u16 },
    /// Looking for available work on a packed queue.
    Packed(PackedAvailable),
    /// Reading the buffers of the chain that begins at `head`; those read so
    /// far are in `payload`.
    Payload {
        head: u16,
        reader: DescriptorReader,
        at: ChainAt,
        payload: Vec<VirtioQueuePayload>,
    },
    /// Counting the descriptors that the chain from `head` on takes up in the
    /// ring of a packed queue.
    Count { head: u16, chain: DescriptorChain, payload: Vec<VirtioQueuePayload> },
}

/// The same with the buffers as a sequence.
#[verifier::ext_equal]
pub enum NextWorkView {
    Split(SplitAvailable),
    Element { index: u16 },
    Packed(PackedAvailable),
    Payload {
        head: u16,
        reader: DescriptorReader,
        at: ChainAt,
        payload: Seq<VirtioQueuePayload>,
    },
    Count { head: u16, chain: DescriptorChain, payload: Seq<VirtioQueuePayload> },
}

impl View for NextWork {
    type V = NextWorkView;

    open spec fn view(&self) -> NextWorkView {
        match *self {
            NextWork::Split(at) => NextWorkView::Split(at),
            NextWork::Element { index } => NextWorkView::Element { index },
            NextWork::Packed(at) => NextWorkView::Packed(at),
            NextWork::Payload { head, reader, at, payload } => NextWorkView::Payload {
                head,
                reader,
                at,
                payload: payload@,
            },
            NextWork::Count { head, chain, payload } => NextWorkView::Count {
                head,
                chain,
                payload: payload@,
            },
        }
    }
}

/// A step of the search for the next piece of work, with the buffers as a
/// sequence.
pub open spec fn next_work_view<E>(step: Step<NextWork, Option<QueueWork>, E>) -> Step<
    NextWorkView,
    Option<QueueWorkView>,
    E,
> {
    match step {
        Step::Wait { at, request } => Step::Wait { at: at@, request },
        Step::Done(Ok(Some(work))) => Step::Done(Ok(Some(work@))),
        Step::Done(Ok(None)) => Step::Done(Ok(None)),
        Step::Done(Err(e)) => Step::Done(Err(e)),
    }
}

/// Whether `size` is a power of 2.
fn is_power_of_two(size: u16) -> (result: bool)
    ensures
        result == is_pow2(size as int),
{
    if size == 0 {
        proof {
            reveal(is_pow2);
        }
        return false;
    }
    let mut rest: u16 = size;
    while rest % 2 == 0
        invariant
            rest > 0,
            is_pow2(size as int) == is_pow2(rest as int),
        decreases rest,
    {
        proof {
            reveal(is_pow2);
        }
        rest = rest / 2;
    }
    proof {
        reveal(is_pow2);
    }
    rest == 1
}

/// The largest power of 2 in 16 bits.
pub proof fn lemma_largest_size(size: u16)
    requires
        is_pow2(size as int),
    ensures
        size <= 0x8000,
{
    reveal_with_fuel(is_pow2, 17);
}

impl QueueCoreGetWork {
    /// The size is a power of 2, and the half for the layout is one of that
    /// size in its turn.
    pub open spec fn wf(self) -> bool {
        &&& is_pow2(self.queue_size as int)
        &&& self.queue_size > 0
        &&& match self.inner {
            QueueGetWorkInner::Split(split) => split.queue_size == self.queue_size && split.wf(),
            QueueGetWorkInner::Packed(packed) => packed.queue_size == self.queue_size
                && packed.wf(),
        }
    }

    /// The half that gets work as it is made.
    pub open spec fn made(features: VirtioDeviceFeatures, params: QueueParams) -> Self {
        QueueCoreGetWork {
            queue_size: params.size,
            features,
            inner: if features.bank1().ring_packed() {
                QueueGetWorkInner::Packed(
                    PackedQueueGetWork {
                        queue_size: params.size,
                        next_avail_index: 0,
                        _use_event_index: features.bank0().ring_event_idx(),
                        wrapped_bit: true,
                    },
                )
            } else {
                QueueGetWorkInner::Split(
                    SplitQueueGetWork {
                        queue_size: params.size,
                        last_avail_index: 0,
                        use_ring_event_index: features.bank0().ring_event_idx(),
                    },
                )
            },
        }
    }

    /// What the making of the half that gets work does on an event. It refuses
    /// a size that is not a power of 2 before it touches guest memory. Then it
    /// takes the table of descriptors, and what its layout needs.
    pub open spec fn setup<E>(
        features: VirtioDeviceFeatures,
        params: QueueParams,
        event: Event<GetWorkSetup, E>,
    ) -> Step<GetWorkSetup, Self, E> {
        match event {
            Event::Start => if is_pow2(params.size as int) {
                Step::Wait {
                    at: GetWorkSetup::Descriptors,
                    request: Self::setup_request(params, GetWorkSetup::Descriptors),
                }
            } else {
                Step::Done(Err(QueueError::InvalidQueueSize(params.size)))
            },
            Event::Reply { at, reply: Err(e) } => Step::Done(Err(QueueError::Memory(e))),
            Event::Reply { at, reply: Ok(_) } => match Self::setup_after(features, at) {
                Some(next) => Step::Wait { at: next, request: Self::setup_request(params, next) },
                None => Step::Done(Ok(Self::made(features, params))),
            },
        }
    }

    /// What is taken after what was taken at `at`, if anything is.
    pub open spec fn setup_after(features: VirtioDeviceFeatures, at: GetWorkSetup) -> Option<
        GetWorkSetup,
    > {
        match at {
            GetWorkSetup::Descriptors => if features.bank1().ring_packed() {
                Some(GetWorkSetup::Packed(PackedSetup::Ring))
            } else {
                Some(GetWorkSetup::Split(SplitSetup::Available))
            },
            GetWorkSetup::Split(SplitSetup::Available) => Some(
                GetWorkSetup::Split(SplitSetup::Used),
            ),
            GetWorkSetup::Packed(PackedSetup::Ring) => Some(
                GetWorkSetup::Packed(PackedSetup::EventSuppression),
            ),
            _ => None,
        }
    }

    /// The request whose reply the making waits for at `at`.
    pub open spec fn setup_request(params: QueueParams, at: GetWorkSetup) -> Request {
        match at {
            GetWorkSetup::Descriptors => Request::Subrange {
                region: Region::Descriptors,
                addr: params.desc_addr,
                len: (DESCRIPTOR_SIZE * params.size) as u64,
            },
            GetWorkSetup::Split(at) => split::split_setup_request(params, at),
            GetWorkSetup::Packed(at) => packed::packed_setup_request(
                params,
                Region::DeviceEvent,
                0,
                at,
            ),
        }
    }

    /// Whether the making can wait at `at`.
    pub open spec fn setup_waits_at(
        features: VirtioDeviceFeatures,
        params: QueueParams,
        at: GetWorkSetup,
    ) -> bool {
        &&& is_pow2(params.size as int)
        &&& at is Split ==> !features.bank1().ring_packed()
        &&& at is Packed ==> features.bank1().ring_packed()
        &&& at == GetWorkSetup::Packed(PackedSetup::EventSuppression) ==> params.desc_addr
            + DESCRIPTOR_SIZE * params.size <= u64::MAX
    }

    fn split_setup_step<E>(
        features: VirtioDeviceFeatures,
        params: QueueParams,
        event: Event<SplitSetup, E>,
    ) -> (step: Step<GetWorkSetup, Self, E>)
        requires
            !features.bank1().ring_packed(),
        ensures
            match event {
                Event::Start => step == (Step::<GetWorkSetup, Self, E>::Wait {
                    at: GetWorkSetup::Split(SplitSetup::Available),
                    request: Self::setup_request(
                        params,
                        GetWorkSetup::Split(SplitSetup::Available),
                    ),
                }),
                Event::Reply { at, reply } => step == Self::setup(
                    features,
                    params,
                    Event::Reply { at: GetWorkSetup::Split(at), reply },
                ),
            },
    {
        match SplitQueueGetWork::new(features, params, event) {
            Step::Wait { at, request } => Step::Wait { at: GetWorkSetup::Split(at), request },
            Step::Done(Ok(split)) => Step::Done(
                Ok(
                    QueueCoreGetWork {
                        queue_size: params.size,
                        features,
                        inner: QueueGetWorkInner::Split(split),
                    },
                ),
            ),
            Step::Done(Err(e)) => Step::Done(Err(e)),
        }
    }

    fn packed_setup_step<E>(
        features: VirtioDeviceFeatures,
        params: QueueParams,
        event: Event<PackedSetup, E>,
    ) -> (step: Step<GetWorkSetup, Self, E>)
        requires
            features.bank1().ring_packed(),
            packed::event_suppression_in_space(params, 0, event),
        ensures
            match event {
                Event::Start => step == (Step::<GetWorkSetup, Self, E>::Wait {
                    at: GetWorkSetup::Packed(PackedSetup::Ring),
                    request: Self::setup_request(params, GetWorkSetup::Packed(PackedSetup::Ring)),
                }),
                Event::Reply { at, reply } => step == Self::setup(
                    features,
                    params,
                    Event::Reply { at: GetWorkSetup::Packed(at), reply },
                ),
            },
    {
        match PackedQueueGetWork::new(features, params, event) {
            Step::Wait { at, request } => Step::Wait { at: GetWorkSetup::Packed(at), request },
            Step::Done(Ok(packed)) => Step::Done(
                Ok(
                    QueueCoreGetWork {
                        queue_size: params.size,
                        features,
                        inner: QueueGetWorkInner::Packed(packed),
                    },
                ),
            ),
            Step::Done(Err(e)) => Step::Done(Err(e)),
        }
    }

    /// Makes the half of a queue that gets work.
    pub fn new<E>(
        features: VirtioDeviceFeatures,
        params: QueueParams,
        event: Event<GetWorkSetup, E>,
    ) -> (step: Step<GetWorkSetup, Self, E>)
        requires
            event matches Event::Reply { at, reply } ==> {
                &&& Self::setup_waits_at(features, params, at)
                &&& memory::answers(Self::setup_request(params, at), memory::reply_view(reply))
            },
        ensures
            step == Self::setup(features, params, event),
            step matches Step::Wait { at, request } ==> {
                &&& Self::setup_waits_at(features, params, at)
                &&& request == Self::setup_request(params, at)
            },
            step matches Step::Done(Ok(queue)) ==> queue.wf(),
    {
        match event {
            Event::Start => {
                // Queue size must be a power of 2
                if !is_power_of_two(params.size) {
                    return Step::Done(Err(QueueError::InvalidQueueSize(params.size)));
                }
                Step::Wait {
                    at: GetWorkSetup::Descriptors,
                    request: Request::Subrange {
                        region: Region::Descriptors,
                        addr: params.desc_addr,
                        len: descriptor_offset(params.size),
                    },
                }
            },
            Event::Reply { at, reply } => {
                proof {
                    reveal(is_pow2);
                }
                match at {
                    GetWorkSetup::Descriptors => {
                        if let Err(e) = reply {
                            return Step::Done(Err(QueueError::Memory(e)));
                        }
                        if features.bank1().ring_packed() {
                            Self::packed_setup_step(features, params, Event::Start)
                        } else {
                            Self::split_setup_step(features, params, Event::Start)
                        }
                    },
                    GetWorkSetup::Split(at) => Self::split_setup_step(
                        features,
                        params,
                        Event::Reply { at, reply },
                    ),
                    GetWorkSetup::Packed(at) => Self::packed_setup_step(
                        features,
                        params,
                        Event::Reply { at, reply },
                    ),
                }
            },
        }
    }

    /// The walk along the chain that begins at `index`.
    pub open spec fn chain(self, indirect_support: bool, index: u16) -> DescriptorChain {
        DescriptorChain {
            packed: self.inner is Packed,
            queue_size: self.queue_size,
            indirect_support,
            indirect_queue: false,
            descriptor_index: Some(index),
            num_read: 0,
            max_desc_chain: descriptor::chain_limit(self.queue_size),
        }
    }

    /// The walk along the chain that begins at `index`, for its buffers.
    pub open spec fn spec_reader(self, index: u16) -> DescriptorReader {
        DescriptorReader { chain: self.chain(self.features.bank0().ring_indirect_desc(), index) }
    }

    /// Whether the search can wait at `at`. While it reads a chain, it has fewer
    /// buffers than a chain may have, and while it counts the descriptors of a
    /// chain, it has counted fewer than a chain may have.
    pub open spec fn waits_at(self, at: NextWorkView) -> bool {
        match at {
            NextWorkView::Split(_) => self.inner is Split,
            NextWorkView::Element { index } => self.inner is Split && index < self.queue_size,
            NextWorkView::Packed(_) => self.inner is Packed,
            NextWorkView::Payload { head, reader, at, payload } => {
                &&& self.inner is Packed ==> head < self.queue_size
                &&& reader.chain.wf()
                &&& reader.chain.waits_at(at)
                &&& reader.chain.num_read == payload.len()
                &&& reader.chain.num_read < descriptor::MAX_DESC_CHAIN
                &&& reader.chain.max_desc_chain <= descriptor::MAX_DESC_CHAIN
            },
            NextWorkView::Count { head, chain, payload } => {
                &&& self.inner is Packed
                &&& head < self.queue_size
                &&& chain.packed && !chain.indirect_support && !chain.indirect_queue
                &&& chain.wf()
                &&& chain.waits_at(ChainAt::Entry)
                &&& chain.num_read < chain.max_desc_chain == descriptor::chain_limit(
                    self.queue_size,
                )
                &&& payload.len() <= descriptor::MAX_DESC_CHAIN
            },
        }
    }

    /// The request whose reply the search waits for at `at`.
    pub open spec fn request_at(self, at: NextWorkView) -> Request {
        match at {
            NextWorkView::Split(at) => self.inner->Split_0.request_at(at),
            NextWorkView::Element { index } => self.inner->Split_0.element_request(index),
            NextWorkView::Packed(at) => self.inner->Packed_0.request_at(at),
            NextWorkView::Payload { head, reader, at, payload } => reader.chain.request_at(at),
            NextWorkView::Count { head, chain, payload } => chain.request_at(
                ChainAt::Entry,
            ),
        }
    }

    /// The search waits at `at`.
    pub open spec fn wait<E>(self, at: NextWorkView) -> Step<
        NextWorkView,
        Option<QueueWorkView>,
        E,
    > {
        Step::Wait { at, request: self.request_at(at) }
    }

    /// What guest memory owes at `at`.
    pub open spec fn answers<E>(self, at: NextWorkView, reply: Result<Seq<u8>, E>) -> bool {
        match at {
            NextWorkView::Payload { head, reader, at, payload } => reader.chain.answers(at, reply),
            NextWorkView::Count { head, chain, payload } => chain.answers(
                ChainAt::Entry,
                reply,
            ),
            _ => memory::answers(self.request_at(at), reply),
        }
    }

    /// What the search does first.
    pub open spec fn next_work_start<E>(self) -> Step<NextWorkView, Option<QueueWorkView>, E> {
        match self.inner {
            QueueGetWorkInner::Split(_) => self.wait(NextWorkView::Split(SplitAvailable::Index)),
            QueueGetWorkInner::Packed(_) => self.wait(
                NextWorkView::Packed(PackedAvailable::Disable),
            ),
        }
    }

    /// What the search does once it has found that a chain begins at `head`.
    pub open spec fn enter_chain<E>(self, head: u16) -> Step<
        NextWorkView,
        Option<QueueWorkView>,
        E,
    > {
        self.wait(
            NextWorkView::Payload {
                head,
                reader: self.spec_reader(head),
                at: ChainAt::Entry,
                payload: Seq::empty(),
            },
        )
    }

    /// What the search does once it has read the buffers of the whole chain. A
    /// split queue is done. On a packed queue the chain may take up further
    /// descriptors of the ring, and they are counted: up to the first one in
    /// the ring that is not followed by another, where no indirect table is
    /// entered.
    pub open spec fn leave_chain<E>(self, head: u16, payload: Seq<VirtioQueuePayload>) -> Step<
        NextWorkView,
        Option<QueueWorkView>,
        E,
    > {
        match self.inner {
            QueueGetWorkInner::Split(_) => Step::Done(
                Ok(
                    Some(
                        QueueWorkView {
                            context: QueueCompletionContext::Split(
                                SplitQueueCompletionContext { descriptor_index: head },
                            ),
                            payload,
                        },
                    ),
                ),
            ),
            QueueGetWorkInner::Packed(_) => self.wait(
                NextWorkView::Count { head, chain: self.chain(false, head), payload },
            ),
        }
    }

    /// What the search does on the reply at a point of the search for available
    /// work on a split queue.
    pub open spec fn split_resume<E>(self, at: SplitAvailable, reply: Result<Seq<u8>, E>) -> (
        Self,
        Step<NextWorkView, Option<QueueWorkView>, E>,
    ) {
        let (split, step) = self.inner->Split_0.is_available_resume(at, reply);
        let queue = QueueCoreGetWork { inner: QueueGetWorkInner::Split(split), ..self };
        (
            queue,
            match step {
                Step::Wait { at, request } => queue.wait(NextWorkView::Split(at)),
                Step::Done(Ok(Some(index))) => queue.wait(NextWorkView::Element { index }),
                Step::Done(Ok(None)) => Step::Done(Ok(None)),
                Step::Done(Err(e)) => Step::Done(Err(e)),
            },
        )
    }

    /// What the search does on the reply at a point of the search for available
    /// work on a packed queue.
    pub open spec fn packed_resume<E>(self, at: PackedAvailable, reply: Result<Seq<u8>, E>) -> Step<
        NextWorkView,
        Option<QueueWorkView>,
        E,
    > {
        match self.inner->Packed_0.is_available_resume(at, reply) {
            Step::Wait { at, request } => self.wait(NextWorkView::Packed(at)),
            Step::Done(Ok(Some(index))) => self.enter_chain(index),
            Step::Done(Ok(None)) => Step::Done(Ok(None)),
            Step::Done(Err(e)) => Step::Done(Err(e)),
        }
    }

    /// What the search does on a reply while it reads the buffers of a chain.
    pub open spec fn payload_resume<E>(
        self,
        head: u16,
        reader: DescriptorReader,
        at: ChainAt,
        payload: Seq<VirtioQueuePayload>,
        reply: Result<Seq<u8>, E>,
    ) -> Step<NextWorkView, Option<QueueWorkView>, E> {
        let (chain, step) = reader.chain.next_resume(at, reply);
        let reader = DescriptorReader { chain };
        match step {
            Step::Wait { at, request } => self.wait(
                NextWorkView::Payload { head, reader, at, payload },
            ),
            Step::Done(Ok(Some(found))) => {
                let payload = payload.push(descriptor::payload_of(found));
                if chain.descriptor_index is Some {
                    self.wait(
                        NextWorkView::Payload { head, reader, at: ChainAt::Entry, payload },
                    )
                } else {
                    self.leave_chain(head, payload)
                }
            },
            Step::Done(Ok(None)) => self.leave_chain(head, payload),
            Step::Done(Err(e)) => Step::Done(Err(e)),
        }
    }

    /// What the search does on a reply while it counts the descriptors of a
    /// chain in the ring. It ends with the last descriptor of the chain, or with
    /// the error that the walk along the chain ends with, and then leaves the
    /// queue as it was.
    pub open spec fn count_resume<E>(
        self,
        head: u16,
        chain: DescriptorChain,
        payload: Seq<VirtioQueuePayload>,
        reply: Result<Seq<u8>, E>,
    ) -> (Self, Step<NextWorkView, Option<QueueWorkView>, E>) {
        let (next, step) = chain.next_resume(ChainAt::Entry, reply);
        match step {
            Step::Done(Err(e)) => (self, Step::Done(Err(e))),
            Step::Done(Ok(Some(last))) => if next.descriptor_index is Some {
                (self, self.wait(NextWorkView::Count { head, chain: next, payload }))
            } else {
                (
                    QueueCoreGetWork {
                        inner: QueueGetWorkInner::Packed(
                            self.inner->Packed_0.consumed(head, next.num_read),
                        ),
                        ..self
                    },
                    Step::Done(
                        Ok(
                            Some(
                                QueueWorkView {
                                    context: QueueCompletionContext::Packed(
                                        PackedQueueCompletionContext {
                                            descriptor_index: head,
                                            buffer_id: last.buffer_id->0,
                                            descriptor_count: next.num_read,
                                        },
                                    ),
                                    payload,
                                },
                            ),
                        ),
                    ),
                )
            },
            _ => (self, Step::Done(Ok(None))),
        }
    }

    /// What the search does on the reply at `at`.
    pub open spec fn next_work_resume<E>(self, at: NextWorkView, reply: Result<Seq<u8>, E>) -> (
        Self,
        Step<NextWorkView, Option<QueueWorkView>, E>,
    ) {
        match at {
            NextWorkView::Split(at) => self.split_resume(at, reply),
            NextWorkView::Element { index } => (
                self,
                match reply {
                    Ok(data) => self.enter_chain(le::le_u16(data)),
                    Err(e) => Step::Done(Err(QueueError::Memory(e))),
                },
            ),
            NextWorkView::Packed(at) => (self, self.packed_resume(at, reply)),
            NextWorkView::Payload { head, reader, at, payload } => (
                self,
                self.payload_resume(head, reader, at, payload, reply),
            ),
            NextWorkView::Count { head, chain, payload } => self.count_resume(
                head,
                chain,
                payload,
                reply,
            ),
        }
    }

    /// Where the search stands after the replies in order, from the step
    /// `step` on.
    pub open spec fn next_work_run_from<E>(
        self,
        step: Step<NextWorkView, Option<QueueWorkView>, E>,
        replies: Seq<Result<Seq<u8>, E>>,
    ) -> (Self, Step<NextWorkView, Option<QueueWorkView>, E>) {
        memory::run(
            self,
            step,
            |queue: Self, at: NextWorkView, reply: Result<Seq<u8>, E>|
                queue.next_work_resume(at, reply),
            replies,
        )
    }

    /// Where the search stands after the replies in order.
    pub open spec fn next_work_run<E>(self, replies: Seq<Result<Seq<u8>, E>>) -> (
        Self,
        Step<NextWorkView, Option<QueueWorkView>, E>,
    ) {
        self.next_work_run_from(self.next_work_start(), replies)
    }

    /// The number of descriptors of the queue.
    pub fn size(&self) -> (size: u16)
        ensures
            size == self.queue_size,
    {
        self.queue_size
    }

    /// Begins to read the buffers of the chain that begins at
    /// `descriptor_index`.
    pub fn reader(&self, descriptor_index: u16) -> (reader: DescriptorReader)
        ensures
            reader == self.spec_reader(descriptor_index),
    {
        DescriptorReader {
            chain: DescriptorChain::new(
                self,
                self.features.bank0().ring_indirect_desc(),
                descriptor_index,
            ),
        }
    }

    fn split_step<E>(&mut self, event: Event<SplitAvailable, E>) -> (step: Step<
        NextWork,
        Option<QueueWork>,
        E,
    >)
        requires
            old(self).wf(),
            old(self).inner is Split,
            event matches Event::Reply { at, reply } ==> old(self).answers(
                NextWorkView::Split(at),
                memory::reply_view(reply),
            ),
        ensures
            match event {
                Event::Start => *final(self) == *old(self) && next_work_view(step) == old(
                    self,
                ).next_work_start::<E>(),
                Event::Reply { at, reply } => (*final(self), next_work_view(step)) == old(
                    self,
                ).split_resume(at, memory::reply_view(reply)),
            },
            final(self).wf(),
            step matches Step::Wait { at, request } ==> final(self).waits_at(at@),
    {
        match &mut self.inner {
            QueueGetWorkInner::Split(split) => match split.is_available(event) {
                Step::Wait { at, request } => Step::Wait { at: NextWork::Split(at), request },
                // Fetch descriptor index from given available index.
                Step::Done(Ok(Some(index))) => Step::Wait {
                    at: NextWork::Element { index },
                    request: split.get_available_descriptor_index(index),
                },
                Step::Done(Ok(None)) => Step::Done(Ok(None)),
                Step::Done(Err(e)) => Step::Done(Err(e)),
            },
            QueueGetWorkInner::Packed(_) => Step::Done(Ok(None)),
        }
    }

    fn begin_chain<E>(&self, head: u16) -> (step: Step<NextWork, Option<QueueWork>, E>)
        requires
            self.wf(),
            self.inner is Packed ==> head < self.queue_size,
        ensures
            next_work_view(step) == self.enter_chain::<E>(head),
            step matches Step::Wait { at, request } && self.waits_at(at@),
    {
        let reader = self.reader(head);
        let payload: Vec<VirtioQueuePayload> = Vec::new();
        assert(payload@ =~= Seq::empty());
        Step::Wait {
            at: NextWork::Payload { head, reader, at: ChainAt::Entry, payload },
            request: descriptor::read_descriptor(Region::Descriptors, head),
        }
    }

    fn packed_step<E>(&self, event: Event<PackedAvailable, E>) -> (step: Step<
        NextWork,
        Option<QueueWork>,
        E,
    >)
        requires
            self.wf(),
            self.inner is Packed,
            event matches Event::Reply { at, reply } ==> self.answers(
                NextWorkView::Packed(at),
                memory::reply_view(reply),
            ),
        ensures
            match event {
                Event::Start => next_work_view(step) == self.next_work_start::<E>(),
                Event::Reply { at, reply } => next_work_view(step) == self.packed_resume(
                    at,
                    memory::reply_view(reply),
                ),
            },
            step matches Step::Wait { at, request } ==> self.waits_at(at@),
    {
        match &self.inner {
            QueueGetWorkInner::Packed(packed) => match packed.is_available(event) {
                Step::Wait { at, request } => Step::Wait { at: NextWork::Packed(at), request },
                Step::Done(Ok(Some(index))) => self.begin_chain(index),
                Step::Done(Ok(None)) => Step::Done(Ok(None)),
                Step::Done(Err(e)) => Step::Done(Err(e)),
            },
            QueueGetWorkInner::Split(_) => Step::Done(Ok(None)),
        }
    }

    fn end_chain<E>(&self, head: u16, payload: Vec<VirtioQueuePayload>) -> (step: Step<
        NextWork,
        Option<QueueWork>,
        E,
    >)
        requires
            self.wf(),
            self.inner is Packed ==> head < self.queue_size,
            payload@.len() <= descriptor::MAX_DESC_CHAIN,
        ensures
            next_work_view(step) == self.leave_chain::<E>(head, payload@),
            step matches Step::Wait { at, request } ==> self.waits_at(at@),
    {
        match self.inner {
            QueueGetWorkInner::Split(_) => Step::Done(
                Ok(
                    Some(
                        QueueWork {
                            context: QueueCompletionContext::Split(
                                SplitQueueCompletionContext { descriptor_index: head },
                            ),
                            payload,
                        },
                    ),
                ),
            ),
            // Packed descriptors can use additional ring-contiguous descriptors
            // to describe a buffer. Find the last descriptor in the current
            // chain and update the available index accordingly. Indirect
            // descriptors are ignored.
            QueueGetWorkInner::Packed(_) => Step::Wait {
                at: NextWork::Count {
                    head,
                    chain: DescriptorChain::new(self, false, head),
                    payload,
                },
                request: descriptor::read_descriptor(Region::Descriptors, head),
            },
        }
    }

    fn payload_step<E>(
        &self,
        head: u16,
        reader: DescriptorReader,
        at: ChainAt,
        payload: Vec<VirtioQueuePayload>,
        reply: Result<Vec<u8>, E>,
    ) -> (step: Step<NextWork, Option<QueueWork>, E>)
        requires
            self.wf(),
            self.waits_at(NextWorkView::Payload { head, reader, at, payload: payload@ }),
            self.answers(
                NextWorkView::Payload { head, reader, at, payload: payload@ },
                memory::reply_view(reply),
            ),
        ensures
            next_work_view(step) == self.payload_resume(
                head,
                reader,
                at,
                payload@,
                memory::reply_view(reply),
            ),
            step matches Step::Wait { at, request } ==> self.waits_at(at@),
            step matches Step::Done(Ok(Some(work))) ==> work.payload@.len()
                <= descriptor::MAX_DESC_CHAIN,
    {
        let mut reader = reader;
        let mut payload = payload;
        match reader.next(Event::Reply { at, reply }) {
            Step::Wait { at, request } => Step::Wait {
                at: NextWork::Payload { head, reader, at, payload },
                request,
            },
            Step::Done(Ok(Some(found))) => {
                payload.push(found);
                match reader.next::<E>(Event::Start) {
                    Step::Wait { at, request } => Step::Wait {
                        at: NextWork::Payload { head, reader, at, payload },
                        request,
                    },
                    Step::Done(_) => self.end_chain(head, payload),
                }
            },
            Step::Done(Ok(None)) => self.end_chain(head, payload),
            Step::Done(Err(e)) => Step::Done(Err(e)),
        }
    }

    fn count_step<E>(
        &mut self,
        head: u16,
        chain: DescriptorChain,
        payload: Vec<VirtioQueuePayload>,
        reply: Result<Vec<u8>, E>,
    ) -> (step: Step<NextWork, Option<QueueWork>, E>)
        requires
            old(self).wf(),
            old(self).waits_at(NextWorkView::Count { head, chain, payload: payload@ }),
            old(self).answers(
                NextWorkView::Count { head, chain, payload: payload@ },
                memory::reply_view(reply),
            ),
        ensures
            (*final(self), next_work_view(step)) == old(self).count_resume(
                head,
                chain,
                payload@,
                memory::reply_view(reply),
            ),
            final(self).wf(),
            step matches Step::Wait { at, request } ==> final(self).waits_at(at@),
            step matches Step::Done(Ok(Some(work))) ==> work.payload@.len()
                <= descriptor::MAX_DESC_CHAIN,
    {
        let mut chain = chain;
        let last = match chain.next_descriptor(Event::Reply { at: ChainAt::Entry, reply }) {
            Step::Done(Ok(Some(last))) => last,
            Step::Done(Err(e)) => {
                return Step::Done(Err(e));
            },
            _ => {
                return Step::Done(Ok(None));
            },
        };
        match chain.next_descriptor::<E>(Event::Start) {
            Step::Wait { at: _, request } => Step::Wait {
                at: NextWork::Count { head, chain, payload },
                request,
            },
            Step::Done(_) => {
                proof {
                    lemma_largest_size(self.queue_size);
                }
                match &mut self.inner {
                    QueueGetWorkInner::Packed(packed) => {
                        let context = packed.consume_next_available_descriptors(
                            head,
                            chain.num_read,
                            last,
                        );
                        Step::Done(
                            Ok(
                                Some(
                                    QueueWork {
                                        context: QueueCompletionContext::Packed(context),
                                        payload,
                                    },
                                ),
                            ),
                        )
                    },
                    QueueGetWorkInner::Split(_) => Step::Done(Ok(None)),
                }
            },
        }
    }

    /// Whether guest memory can have given the reply to `request` at `at`.
    pub fn accepts<E>(&self, at: &NextWork, request: &Request, reply: &Result<Vec<u8>, E>) -> (
        accepts: bool)
        requires
            self.waits_at(at@),
            *request == self.request_at(at@),
        ensures
            accepts == self.answers(at@, memory::reply_view(*reply)),
    {
        match at {
            NextWork::Payload { head: _, reader, at, payload: _ } => reader.chain.accepts(
                *at,
                reply,
            ),
            NextWork::Count { head: _, chain, payload: _ } => chain.accepts(ChainAt::Entry, reply),
            _ => memory::is_answer(request, reply),
        }
    }

    /// Gets the next piece of work, if there is any.
    pub fn try_next_work<E>(&mut self, event: Event<NextWork, E>) -> (step: Step<
        NextWork,
        Option<QueueWork>,
        E,
    >)
        requires
            old(self).wf(),
            event matches Event::Reply { at, reply } ==> {
                &&& old(self).waits_at(at@)
                &&& old(self).answers(at@, memory::reply_view(reply))
            },
        ensures
            match event {
                Event::Start => *final(self) == *old(self) && next_work_view(step) == old(
                    self,
                ).next_work_start::<E>(),
                Event::Reply { at, reply } => (*final(self), next_work_view(step)) == old(
                    self,
                ).next_work_resume(at@, memory::reply_view(reply)),
            },
            final(self).wf(),
            step matches Step::Wait { at, request } ==> {
                &&& final(self).waits_at(at@)
                &&& request == final(self).request_at(at@)
            },
            step matches Step::Done(Ok(Some(work))) ==> work.payload@.len()
                <= descriptor::MAX_DESC_CHAIN,
    {
        match event {
            Event::Start => match self.inner {
                QueueGetWorkInner::Split(_) => self.split_step(Event::Start),
                QueueGetWorkInner::Packed(_) => self.packed_step(Event::Start),
            },
            Event::Reply { at, reply } => match at {
                NextWork::Split(at) => self.split_step(Event::Reply { at, reply }),
                NextWork::Element { index: _ } => match reply {
                    Ok(data) => {
                        assert(data@.subrange(0, 2) =~= data@);
                        let descriptor_index: u16 = le::read_u16(&data, 0);
                        self.begin_chain(descriptor_index)
                    },
                    Err(e) => Step::Done(Err(QueueError::Memory(e))),
                },
                NextWork::Packed(at) => self.packed_step(Event::Reply { at, reply }),
                NextWork::Payload { head, reader, at, payload } => self.payload_step(
                    head,
                    reader,
                    at,
                    payload,
                    reply,
                ),
                NextWork::Count { head, chain, payload } => self.count_step(
                    head,
                    chain,
                    payload,
                    reply,
                ),
            },
        }
    }
}

impl DescriptorChain {
    /// Begins a walk along the chain of `queue` that begins at
    /// `descriptor_index`.
    pub fn new(
        queue: &QueueCoreGetWork,
        indirect_support: bool,
        descriptor_index: u16,
    ) -> (chain: Self)
        ensures
            chain == queue.chain(indirect_support, descriptor_index),
    {
        let packed = match queue.inner {
            QueueGetWorkInner::Split(_) => false,
            QueueGetWorkInner::Packed(_) => true,
        };
        DescriptorChain {
            packed,
            queue_size: queue.size(),
            indirect_support,
            indirect_queue: false,
            descriptor_index: Some(descriptor_index),
            num_read: 0,
            max_desc_chain: descriptor::limit_chain(queue.size()),
        }
    }
}

} // verus!
