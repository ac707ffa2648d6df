//! Laws on how a queue is made.

use crate::complete_work::{CompleteWorkSetup, QueueCompleteWorkInner, QueueCoreCompleteWork};
use crate::get_work::{GetWorkSetup, NextWorkView, QueueCoreGetWork, QueueGetWorkInner};
use crate::laws;
use crate::laws::bits;
use crate::laws::bits::bit_of;
use crate::layout::VirtioDeviceFeatures;
use crate::memory::{Event, QueueError, Region, Request, Step};
use crate::packed;
use crate::packed::{PackedQueueCompleteWork, PackedQueueGetWork, PackedSetup};
use crate::queue;
use crate::queue::{QueueParams, QueueSetup};
use crate::split;
use crate::split::{SplitQueueCompleteWork, SplitQueueGetWork, SplitSetup};
use vstd::arithmetic::power2::is_pow2;
use vstd::prelude::*;

verus! {

/// A queue whose size is not a power of 2 is refused before guest memory is
/// touched; no other queue is.
pub proof fn law_refuses_size<E>(features: VirtioDeviceFeatures, params: QueueParams)
    ensures
        ({
            let step = queue::queue_setup::<E>(features, params, Event::Start);
            if is_pow2(params.size as int) {
                step is Wait
            } else {
                step == Step::<QueueSetup, (QueueCoreGetWork, QueueCoreCompleteWork), E>::Done(
                    Err(QueueError::InvalidQueueSize(params.size)),
                )
            }
        }),
{
}

/// Whether the making of a queue, on the reply `data` at `at`, goes on at
/// `next` with the given request.
pub open spec fn goes_on<E>(
    features: VirtioDeviceFeatures,
    params: QueueParams,
    at: QueueSetup,
    data: Vec<u8>,
    next: QueueSetup,
    request: Request,
) -> bool {
    queue::queue_setup::<E>(features, params, Event::Reply { at, reply: Ok(data) }) == Step::<
        QueueSetup,
        (QueueCoreGetWork, QueueCoreCompleteWork),
        E,
    >::Wait { at: next, request }
}

/// The half of a queue that gets work as it is made: at the beginning of its
/// ring, in a packed queue with the wrap counter set, and with event indices
/// exactly where feature 29 is in use.
pub open spec fn new_get_work(
    features: VirtioDeviceFeatures,
    params: QueueParams,
    packed: bool,
) -> QueueCoreGetWork {
    let event_index = bit_of(features.bank0.bits as int, 0x2000_0000);
    QueueCoreGetWork {
        queue_size: params.size,
        features,
        inner: if packed {
            QueueGetWorkInner::Packed(
                PackedQueueGetWork {
                    queue_size: params.size,
                    next_avail_index: 0,
                    _use_event_index: event_index,
                    wrapped_bit: true,
                },
            )
        } else {
            QueueGetWorkInner::Split(
                SplitQueueGetWork {
                    queue_size: params.size,
                    last_avail_index: 0,
                    use_ring_event_index: event_index,
                },
            )
        },
    }
}

/// The half of a queue that completes work as it is made.
pub open spec fn new_complete_work(
    features: VirtioDeviceFeatures,
    params: QueueParams,
    packed: bool,
) -> QueueCoreCompleteWork {
    let event_index = bit_of(features.bank0.bits as int, 0x2000_0000);
    QueueCoreCompleteWork {
        inner: if packed {
            QueueCompleteWorkInner::Packed(
                PackedQueueCompleteWork {
                    queue_size: params.size,
                    next_index: 0,
                    wrapped_bit: true,
                    use_event_index: event_index,
                },
            )
        } else {
            QueueCompleteWorkInner::Split(
                SplitQueueCompleteWork {
                    queue_size: params.size,
                    last_used_index: 0,
                    use_ring_event_index: event_index,
                },
            )
        },
    }
}

/// The taking of the available ring: two bytes of flags, two of an index, two for
/// each descriptor of the queue, and two of an event index.
pub open spec fn take_available(params: QueueParams) -> Request {
    Request::Subrange {
        region: Region::Available,
        addr: params.avail_addr,
        len: (6 + 2 * params.size) as u64,
    }
}

/// The taking of the used ring: two bytes of flags, two of an index, eight for
/// each descriptor of the queue, and two of an event index.
pub open spec fn take_used(params: QueueParams) -> Request {
    Request::Subrange {
        region: Region::Used,
        addr: params.used_addr,
        len: (6 + 8 * params.size) as u64,
    }
}

/// The taking of the sixteen bytes of each descriptor of the queue.
pub open spec fn take_descriptors(params: QueueParams, region: Region) -> Request {
    Request::Subrange { region, addr: params.desc_addr, len: (16 * params.size) as u64 }
}

/// The taking of an event suppression structure, of four bytes, that lies
/// `distance` bytes behind the descriptors.
pub open spec fn take_event(params: QueueParams, region: Region, distance: int) -> Request {
    Request::Subrange {
        region,
        addr: (params.desc_addr + 16 * params.size + distance) as u64,
        len: 4,
    }
}

/// The making of a split queue takes the table of descriptors and both rings
/// for the half that gets work, and both rings for the half that completes it.
/// Then both halves are there, at the beginning of their rings.
pub proof fn law_makes_split_queue<E>(
    features: VirtioDeviceFeatures,
    params: QueueParams,
    done: Seq<Vec<u8>>,
)
    requires
        !bit_of(features.bank1.bits as int, 4),
        is_pow2(params.size as int),
    ensures
        ({
            let get_work = new_get_work(features, params, false);
            let at0 = QueueSetup::GetWork(GetWorkSetup::Descriptors);
            let at1 = QueueSetup::GetWork(GetWorkSetup::Split(SplitSetup::Available));
            let at2 = QueueSetup::GetWork(GetWorkSetup::Split(SplitSetup::Used));
            let at3 = QueueSetup::CompleteWork {
                get_work,
                at: CompleteWorkSetup::Split(SplitSetup::Available),
            };
            let at4 = QueueSetup::CompleteWork {
                get_work,
                at: CompleteWorkSetup::Split(SplitSetup::Used),
            };
            &&& queue::queue_setup::<E>(features, params, Event::Start) == Step::<
                QueueSetup,
                (QueueCoreGetWork, QueueCoreCompleteWork),
                E,
            >::Wait { at: at0, request: take_descriptors(params, Region::Descriptors) }
            &&& goes_on::<E>(features, params, at0, done[0], at1, take_available(params))
            &&& goes_on::<E>(features, params, at1, done[1], at2, take_used(params))
            &&& goes_on::<E>(features, params, at2, done[2], at3, take_available(params))
            &&& goes_on::<E>(features, params, at3, done[3], at4, take_used(params))
            &&& queue::queue_setup::<E>(
                features,
                params,
                Event::Reply { at: at4, reply: Ok(done[4]) },
            ) == Step::<QueueSetup, (QueueCoreGetWork, QueueCoreCompleteWork), E>::Done(
                Ok((get_work, new_complete_work(features, params, false))),
            )
        }),
{
    bits::law_feature_bits(features);
}

/// The making of a packed queue takes the table of descriptors, the ring and
/// the device's event suppression structure for the half that gets work, and
/// the ring and the driver's event suppression structure for the half that
/// completes it. The two structures follow the ring, the device's first. Then
/// both halves are there, at the beginning of the ring.
pub proof fn law_makes_packed_queue<E>(
    features: VirtioDeviceFeatures,
    params: QueueParams,
    done: Seq<Vec<u8>>,
)
    requires
        bit_of(features.bank1.bits as int, 4),
        is_pow2(params.size as int),
    ensures
        ({
            let get_work = new_get_work(features, params, true);
            let ring = take_descriptors(params, Region::PackedRing);
            let at0 = QueueSetup::GetWork(GetWorkSetup::Descriptors);
            let at1 = QueueSetup::GetWork(GetWorkSetup::Packed(PackedSetup::Ring));
            let at2 = QueueSetup::GetWork(GetWorkSetup::Packed(PackedSetup::EventSuppression));
            let at3 = QueueSetup::CompleteWork {
                get_work,
                at: CompleteWorkSetup::Packed(PackedSetup::Ring),
            };
            let at4 = QueueSetup::CompleteWork {
                get_work,
                at: CompleteWorkSetup::Packed(PackedSetup::EventSuppression),
            };
            let device_event = take_event(params, Region::DeviceEvent, 0);
            let driver_event = take_event(params, Region::DriverEvent, 4);
            &&& queue::queue_setup::<E>(features, params, Event::Start) == Step::<
                QueueSetup,
                (QueueCoreGetWork, QueueCoreCompleteWork),
                E,
            >::Wait { at: at0, request: take_descriptors(params, Region::Descriptors) }
            &&& goes_on::<E>(features, params, at0, done[0], at1, ring)
            &&& goes_on::<E>(features, params, at1, done[1], at2, device_event)
            &&& goes_on::<E>(features, params, at2, done[2], at3, ring)
            &&& goes_on::<E>(features, params, at3, done[3], at4, driver_event)
            &&& queue::queue_setup::<E>(
                features,
                params,
                Event::Reply { at: at4, reply: Ok(done[4]) },
            ) == Step::<QueueSetup, (QueueCoreGetWork, QueueCoreCompleteWork), E>::Done(
                Ok((get_work, new_complete_work(features, params, true))),
            )
        }),
{
    bits::law_feature_bits(features);
}

/// A half of a split queue, of whatever size, takes the available ring, then the
/// used ring, and is made as it is to be once it has both.
pub proof fn law_split_half<T, E>(params: QueueParams, made: T, data: Vec<u8>, at: SplitSetup, e: E)
    ensures
        split::split_setup::<T, E>(params, Event::Start, made) == (Step::<SplitSetup, T, E>::Wait {
            at: SplitSetup::Available,
            request: take_available(params),
        }),
        split::split_setup::<T, E>(
            params,
            (Event::Reply { at: SplitSetup::Available, reply: Ok(data) }),
            made,
        ) == (Step::<SplitSetup, T, E>::Wait {
            at: SplitSetup::Used,
            request: take_used(params),
        }),
        split::split_setup::<T, E>(
            params,
            (Event::Reply { at: SplitSetup::Used, reply: Ok(data) }),
            made,
        ) == Step::<SplitSetup, T, E>::Done(Ok(made)),
        split::split_setup::<T, E>(params, (Event::Reply { at, reply: Err(e) }), made) == Step::<
            SplitSetup,
            T,
            E,
        >::Done(Err(QueueError::Memory(e))),
{
}

/// A half of a packed queue, of whatever size, takes the ring, then its event
/// suppression structure, and is made as it is to be once it has both.
pub proof fn law_packed_half<T, E>(
    params: QueueParams,
    region: Region,
    distance: int,
    made: T,
    data: Vec<u8>,
    at: PackedSetup,
    e: E,
)
    ensures
        packed::packed_setup::<T, E>(params, region, distance, Event::Start, made) == (Step::<
            PackedSetup,
            T,
            E,
        >::Wait {
            at: PackedSetup::Ring,
            request: take_descriptors(params, Region::PackedRing),
        }),
        packed::packed_setup::<T, E>(
            params,
            region,
            distance,
            (Event::Reply { at: PackedSetup::Ring, reply: Ok(data) }),
            made,
        ) == (Step::<PackedSetup, T, E>::Wait {
            at: PackedSetup::EventSuppression,
            request: take_event(params, region, distance),
        }),
        packed::packed_setup::<T, E>(
            params,
            region,
            distance,
            (Event::Reply { at: PackedSetup::EventSuppression, reply: Ok(data) }),
            made,
        ) == Step::<PackedSetup, T, E>::Done(Ok(made)),
        packed::packed_setup::<T, E>(
            params,
            region,
            distance,
            (Event::Reply { at, reply: Err(e) }),
            made,
        ) == Step::<PackedSetup, T, E>::Done(Err(QueueError::Memory(e))),
{
}

/// Each half of a queue can be made alone: the half that gets work where its size
/// is a power of 2, the half that completes work always.
pub proof fn law_makes_halves<E>(
    features: VirtioDeviceFeatures,
    params: QueueParams,
    done: Vec<u8>,
)
    ensures
        ({
            let packed = bit_of(features.bank1.bits as int, 4);
            let last_of_get_work = if packed {
                GetWorkSetup::Packed(PackedSetup::EventSuppression)
            } else {
                GetWorkSetup::Split(SplitSetup::Used)
            };
            let last_of_complete_work = if packed {
                CompleteWorkSetup::Packed(PackedSetup::EventSuppression)
            } else {
                CompleteWorkSetup::Split(SplitSetup::Used)
            };
            &&& QueueCoreGetWork::setup::<E>(features, params, Event::Start) == (if is_pow2(
                params.size as int,
            ) {
                Step::<GetWorkSetup, QueueCoreGetWork, E>::Wait {
                    at: GetWorkSetup::Descriptors,
                    request: take_descriptors(params, Region::Descriptors),
                }
            } else {
                Step::<GetWorkSetup, QueueCoreGetWork, E>::Done(
                    Err(QueueError::InvalidQueueSize(params.size)),
                )
            })
            &&& QueueCoreGetWork::setup::<E>(
                features,
                params,
                Event::Reply { at: last_of_get_work, reply: Ok(done) },
            ) == Step::<GetWorkSetup, QueueCoreGetWork, E>::Done(
                Ok(new_get_work(features, params, packed)),
            )
            &&& QueueCoreCompleteWork::setup::<E>(features, params, Event::Start) == (if packed {
                Step::<CompleteWorkSetup, QueueCoreCompleteWork, E>::Wait {
                    at: CompleteWorkSetup::Packed(PackedSetup::Ring),
                    request: take_descriptors(params, Region::PackedRing),
                }
            } else {
                Step::<CompleteWorkSetup, QueueCoreCompleteWork, E>::Wait {
                    at: CompleteWorkSetup::Split(SplitSetup::Available),
                    request: take_available(params),
                }
            })
            &&& QueueCoreCompleteWork::setup::<E>(
                features,
                params,
                Event::Reply {
                    at: if packed {
                        CompleteWorkSetup::Packed(PackedSetup::Ring)
                    } else {
                        CompleteWorkSetup::Split(SplitSetup::Available)
                    },
                    reply: Ok(done),
                },
            ) == Step::<CompleteWorkSetup, QueueCoreCompleteWork, E>::Wait {
                at: last_of_complete_work,
                request: if packed {
                    take_event(params, Region::DriverEvent, 4)
                } else {
                    take_used(params)
                },
            }
            &&& QueueCoreCompleteWork::setup::<E>(
                features,
                params,
                Event::Reply { at: last_of_complete_work, reply: Ok(done) },
            ) == Step::<CompleteWorkSetup, QueueCoreCompleteWork, E>::Done(
                Ok(new_complete_work(features, params, packed)),
            )
        }),
{
    bits::law_feature_bits(features);
}

/// Where guest memory does not grant what the making of a queue asks for, the
/// making ends with the error of guest memory.
pub proof fn law_setup_access_fails<E>(
    features: VirtioDeviceFeatures,
    params: QueueParams,
    at: QueueSetup,
    e: E,
)
    ensures
        queue::queue_setup::<E>(features, params, Event::Reply { at, reply: Err(e) }) == Step::<
            QueueSetup,
            (QueueCoreGetWork, QueueCoreCompleteWork),
            E,
        >::Done(Err(QueueError::Memory(e))),
{
}

/// The two halves of a queue have one layout and, on a packed queue, begin at
/// one position of the ring in one lap.
pub proof fn law_halves_begin_in_step(features: VirtioDeviceFeatures, params: QueueParams)
    ensures
        match (
            QueueCoreGetWork::made(features, params).inner,
            QueueCoreCompleteWork::made(features, params).inner,
        ) {
            (
                QueueGetWorkInner::Split(get_work),
                QueueCompleteWorkInner::Split(complete_work),
            ) => get_work.queue_size == complete_work.queue_size,
            (
                QueueGetWorkInner::Packed(get_work),
                QueueCompleteWorkInner::Packed(complete_work),
            ) => laws::packed::in_step(get_work, complete_work),
            _ => false,
        },
{
}

/// A queue keeps its layout, its size and its features, and hands out work of
/// its own layout.
pub proof fn law_work_fits_queue<E>(
    get_work: QueueCoreGetWork,
    at: NextWorkView,
    reply: Result<Seq<u8>, E>,
)
    requires
        get_work.waits_at(at),
    ensures
        ({
            let (after, step) = get_work.next_work_resume(at, reply);
            &&& after.inner is Split <==> get_work.inner is Split
            &&& after.queue_size == get_work.queue_size
            &&& after.features == get_work.features
            &&& step matches Step::Done(Ok(Some(work))) ==> (work.context is Split
                <==> get_work.inner is Split)
        }),
{
}

} // verus!
