use vm_devices::complete_work::{Completion, QueueCompleteWorkInner, QueueCoreCompleteWork};
use vm_devices::descriptor::{ChainAt, DescriptorChain, VirtioQueuePayload};
use vm_devices::get_work::{QueueCoreGetWork, QueueGetWorkInner};
use vm_devices::layout::{
    DescriptorFlags, EventSuppressionFlags, PackedDescriptor, PackedEventSuppresion,
    SplitDescriptor, UsedElement, UsedFlags, VirtioDeviceFeatures,
};
use vm_devices::memory::{is_answer, Event, Fence, Plain, QueueError, Region, Request, Step};
use vm_devices::packed::{PackedCompletion, PackedQueueCompletionContext};
use vm_devices::queue::{new_queue, QueueCompletionContext, QueueParams, QueueWork};
use vm_devices::split::SplitQueueCompletionContext;

type Fault = &'static str;

const INDIRECT: u32 = 1 << 28;
const EVENT_IDX: u32 = 1 << 29;
const PACKED: u32 = 1 << 2;

const DESC: u64 = 0x1000;
const AVAIL: u64 = 0x3000;
const USED: u64 = 0x4000;
const TABLE: u64 = 0x8000;

const NEXT: u16 = 1;
const WRITE: u16 = 2;
const IND: u16 = 4;

/// Guest memory, and what has been asked of it.
struct Guest {
    bytes: Vec<u8>,
    regions: Vec<(Region, u64, u64)>,
    log: Vec<Request>,
    failing: Vec<usize>,
}

impl Guest {
    fn new() -> Self {
        Guest {
            bytes: vec![0; 0x40000],
            regions: Vec::new(),
            log: Vec::new(),
            failing: Vec::new(),
        }
    }

    fn put(&mut self, at: u64, data: &[u8]) {
        self.bytes[at as usize..at as usize + data.len()].copy_from_slice(data);
    }

    fn put_u16(&mut self, at: u64, v: u16) {
        self.put(at, &v.to_le_bytes());
    }

    fn get_u16(&self, at: u64) -> u16 {
        u16::from_le_bytes([self.bytes[at as usize], self.bytes[at as usize + 1]])
    }

    fn get_u32(&self, at: u64) -> u32 {
        self.get_u16(at) as u32 | (self.get_u16(at + 2) as u32) << 16
    }

    fn split(&mut self, at: u64, address: u64, length: u32, flags: u16, next: u16) {
        self.put(at, &address.to_le_bytes());
        self.put(at + 8, &length.to_le_bytes());
        self.put_u16(at + 12, flags);
        self.put_u16(at + 14, next);
    }

    fn packed(&mut self, at: u64, address: u64, length: u32, id: u16, flags: u16) {
        self.put(at, &address.to_le_bytes());
        self.put(at + 8, &length.to_le_bytes());
        self.put_u16(at + 12, id);
        self.put_u16(at + 14, flags);
    }

    fn locate(&self, region: Region, offset: u64, len: u64) -> Result<usize, Fault> {
        let (_, addr, size) = self
            .regions
            .iter()
            .rev()
            .find(|entry| entry.0 == region)
            .expect("region has been taken");
        if offset + len > *size {
            return Err("out of range");
        }
        Ok((addr + offset) as usize)
    }

    fn perform(&mut self, request: Request) -> Result<Vec<u8>, Fault> {
        let number = self.log.len();
        self.log.push(request);
        if self.failing.contains(&number) {
            return Err("fault");
        }
        match request {
            Request::Subrange { region, addr, len } => {
                if addr.checked_add(len).map_or(true, |end| end > self.bytes.len() as u64) {
                    return Err("out of range");
                }
                self.regions.push((region, addr, len));
                Ok(Vec::new())
            }
            Request::Read { region, offset, len } => {
                let at = self.locate(region, offset, len)?;
                Ok(self.bytes[at..at + len as usize].to_vec())
            }
            Request::Write {
                region,
                offset,
                value,
            } => {
                let data = value.bytes();
                let at = self.locate(region, offset, data.len() as u64)?;
                self.put(at as u64, &data);
                Ok(Vec::new())
            }
            Request::Fence(_) => Ok(Vec::new()),
        }
    }
}

fn features(bank0: u32, bank1: u32) -> VirtioDeviceFeatures {
    VirtioDeviceFeatures::new(bank0, bank1)
}

fn params(size: u16) -> QueueParams {
    QueueParams {
        size,
        enable: true,
        desc_addr: DESC,
        avail_addr: AVAIL,
        used_addr: USED,
    }
}

fn make(
    guest: &mut Guest,
    features: VirtioDeviceFeatures,
    params: QueueParams,
) -> Result<(QueueCoreGetWork, QueueCoreCompleteWork), QueueError<Fault>> {
    let mut step = new_queue(features, params, Event::Start);
    loop {
        match step {
            Step::Done(result) => return result,
            Step::Wait { at, request } => {
                let reply = guest.perform(request);
                assert!(is_answer(&request, &reply));
                step = new_queue(features, params, Event::Reply { at, reply });
            }
        }
    }
}

/// A queue with no request in the log yet.
fn ready_queue(
    guest: &mut Guest,
    bank0: u32,
    bank1: u32,
    size: u16,
) -> (QueueCoreGetWork, QueueCoreCompleteWork) {
    let queue = make(guest, features(bank0, bank1), params(size)).unwrap();
    guest.log.clear();
    queue
}

fn next(
    guest: &mut Guest,
    queue: &mut QueueCoreGetWork,
) -> Result<Option<QueueWork>, QueueError<Fault>> {
    let mut step = queue.try_next_work(Event::Start);
    loop {
        match step {
            Step::Done(result) => return result,
            Step::Wait { at, request } => {
                let reply = guest.perform(request);
                assert!(queue.accepts(&at, &request, &reply));
                step = queue.try_next_work(Event::Reply { at, reply });
            }
        }
    }
}

fn complete(
    guest: &mut Guest,
    queue: &mut QueueCoreCompleteWork,
    work: &QueueWork,
    bytes_written: u32,
) -> Result<bool, QueueError<Fault>> {
    let mut step = queue.complete_descriptor(work, bytes_written, Event::Start);
    loop {
        match step {
            Step::Done(result) => return result,
            Step::Wait { at, request } => {
                let reply = guest.perform(request);
                assert!(queue.accepts(work, bytes_written, &at, &request, &reply));
                step = queue.complete_descriptor(work, bytes_written, Event::Reply { at, reply });
            }
        }
    }
}

fn buffer(address: u64, length: u32, writeable: bool) -> VirtioQueuePayload {
    VirtioQueuePayload {
        writeable,
        address,
        length,
    }
}

fn split_work(descriptor_index: u16, payload: Vec<VirtioQueuePayload>) -> QueueWork {
    QueueWork {
        context: QueueCompletionContext::Split(SplitQueueCompletionContext { descriptor_index }),
        payload,
    }
}

fn packed_work(
    descriptor_index: u16,
    buffer_id: u16,
    descriptor_count: u16,
    payload: Vec<VirtioQueuePayload>,
) -> QueueWork {
    QueueWork {
        context: QueueCompletionContext::Packed(PackedQueueCompletionContext {
            descriptor_index,
            buffer_id,
            descriptor_count,
        }),
        payload,
    }
}

/// The flags of a packed descriptor that is ready in the lap `bit`.
fn lap(bit: bool) -> u16 {
    if bit {
        0x0080
    } else {
        0x8000
    }
}

// ---- making a queue

#[test]
fn sizes_that_are_no_power_of_2_are_refused_at_once() {
    for size in [0u16, 3, 6, 100, 1023, 0xffff] {
        let mut guest = Guest::new();
        assert_eq!(
            make(&mut guest, features(0, 0), params(size)),
            Err(QueueError::InvalidQueueSize(size))
        );
        assert!(guest.log.is_empty());
    }
    for size in [1u16, 2, 4, 256] {
        let mut guest = Guest::new();
        assert!(make(&mut guest, features(0, 0), params(size)).is_ok());
    }
}

#[test]
fn split_queue_takes_its_rings() {
    let mut guest = Guest::new();
    make(&mut guest, features(0, 0), params(8)).unwrap();
    let desc = Request::Subrange { region: Region::Descriptors, addr: DESC, len: 128 };
    let avail = Request::Subrange { region: Region::Available, addr: AVAIL, len: 22 };
    let used = Request::Subrange { region: Region::Used, addr: USED, len: 70 };
    assert_eq!(guest.log, vec![desc, avail, used, avail, used]);
}

#[test]
fn packed_queue_takes_its_ring_and_event_structures() {
    let mut guest = Guest::new();
    make(&mut guest, features(0, PACKED), params(8)).unwrap();
    let desc = Request::Subrange { region: Region::Descriptors, addr: DESC, len: 128 };
    let ring = Request::Subrange { region: Region::PackedRing, addr: DESC, len: 128 };
    let device = Request::Subrange { region: Region::DeviceEvent, addr: DESC + 128, len: 4 };
    let driver = Request::Subrange { region: Region::DriverEvent, addr: DESC + 132, len: 4 };
    assert_eq!(guest.log, vec![desc, ring, device, ring, driver]);
}

#[test]
fn memory_that_is_not_granted_fails_the_making() {
    for bank1 in [0, PACKED] {
        for number in 0..5 {
            let mut guest = Guest::new();
            guest.failing.push(number);
            assert_eq!(
                make(&mut guest, features(0, bank1), params(8)),
                Err(QueueError::Memory("fault"))
            );
            assert_eq!(guest.log.len(), number + 1);
        }
    }
}

#[test]
fn halves_begin_at_the_start_of_the_ring() {
    let mut guest = Guest::new();
    let (get, complete) = ready_queue(&mut guest, EVENT_IDX, PACKED, 8);
    assert_eq!(get.size(), 8);
    match (get.inner, complete.inner) {
        (QueueGetWorkInner::Packed(get), QueueCompleteWorkInner::Packed(complete)) => {
            assert_eq!((get.next_avail_index, get.wrapped_bit), (0, true));
            assert_eq!((complete.next_index, complete.wrapped_bit), (0, true));
            assert!(get._use_event_index && complete.use_event_index);
        }
        _ => panic!("packed"),
    }
}

#[test]
fn default_params_are_empty() {
    assert_eq!(
        QueueParams::default(),
        QueueParams { size: 0, enable: false, desc_addr: 0, avail_addr: 0, used_addr: 0 }
    );
}

// ---- split queues

#[test]
fn split_chain_is_handed_out() {
    let mut guest = Guest::new();
    let (mut queue, _) = ready_queue(&mut guest, 0, 0, 4);
    guest.split(DESC + 16 * 2, 0x10000, 10, NEXT, 0);
    guest.split(DESC, 0x20000, 20, NEXT | WRITE, 7);
    guest.split(DESC + 16 * 3, 0x30000, 30, WRITE, 1);
    guest.put_u16(AVAIL + 2, 1);
    guest.put_u16(AVAIL + 4 + 2, 2);
    let work = next(&mut guest, &mut queue).unwrap().unwrap();
    assert_eq!(
        work,
        split_work(
            2,
            vec![
                buffer(0x10000, 10, false),
                buffer(0x20000, 20, true),
                buffer(0x30000, 30, true),
            ]
        )
    );
    assert_eq!(work.descriptor_index(), 2);
    let read = |region, offset, len| Request::Read { region, offset, len };
    assert_eq!(
        guest.log,
        vec![
            read(Region::Available, 2, 2),
            Request::Write { region: Region::Used, offset: 0, value: Plain::U16(1) },
            Request::Fence(Fence::Acquire),
            read(Region::Available, 6, 2),
            read(Region::Descriptors, 32, 16),
            read(Region::Descriptors, 0, 16),
            read(Region::Descriptors, 48, 16),
        ]
    );
}

#[test]
fn split_queue_without_work() {
    let mut guest = Guest::new();
    let (mut queue, _) = ready_queue(&mut guest, 0, 0, 4);
    let before = queue;
    guest.put_u16(USED, 1);
    assert_eq!(next(&mut guest, &mut queue), Ok(None));
    assert_eq!(queue, before);
    let index = Request::Read { region: Region::Available, offset: 2, len: 2 };
    assert_eq!(
        guest.log,
        vec![
            index,
            Request::Write { region: Region::Used, offset: 0, value: Plain::U16(0) },
            Request::Fence(Fence::SeqCst),
            index,
        ]
    );
    assert_eq!(guest.get_u16(USED), 0);
}

#[test]
fn split_queue_without_work_names_the_event_index() {
    let mut guest = Guest::new();
    let (mut queue, _) = ready_queue(&mut guest, EVENT_IDX, 0, 4);
    if let QueueGetWorkInner::Split(split) = &mut queue.inner {
        split.last_avail_index = 9;
    }
    guest.put_u16(AVAIL + 2, 9);
    assert_eq!(next(&mut guest, &mut queue), Ok(None));
    assert_eq!(
        guest.log[1],
        Request::Write { region: Region::Used, offset: 4 + 32, value: Plain::U16(9) }
    );
    assert_eq!(guest.get_u16(USED + 36), 9);
}

#[test]
fn split_work_added_while_rearming_is_found() {
    let mut guest = Guest::new();
    let (mut queue, _) = ready_queue(&mut guest, EVENT_IDX, 0, 4);
    guest.split(DESC, 0x10000, 10, 0, 0);
    let mut step = queue.try_next_work::<Fault>(Event::Start);
    for _ in 0..3 {
        step = match step {
            Step::Wait { at, request } => {
                let reply = guest.perform(request);
                queue.try_next_work(Event::Reply { at, reply })
            }
            Step::Done(_) => panic!("too early"),
        };
    }
    guest.put_u16(AVAIL + 2, 1);
    let result = loop {
        match step {
            Step::Done(result) => break result,
            Step::Wait { at, request } => {
                let reply = guest.perform(request);
                step = queue.try_next_work(Event::Reply { at, reply });
            }
        }
    };
    assert_eq!(
        result,
        Ok(Some(split_work(0, vec![buffer(0x10000, 10, false)])))
    );
    assert_eq!(guest.log[2], Request::Fence(Fence::SeqCst));
    assert_eq!(guest.log[5], Request::Fence(Fence::Acquire));
}

#[test]
fn split_positions_go_around_the_ring() {
    let mut guest = Guest::new();
    let (mut queue, _) = ready_queue(&mut guest, 0, 0, 4);
    for i in 0..4u16 {
        guest.split(DESC + 16 * i as u64, 0x10000 + i as u64, 1, 0, 0);
        guest.put_u16(AVAIL + 4 + 2 * i as u64, i);
    }
    if let QueueGetWorkInner::Split(split) = &mut queue.inner {
        split.last_avail_index = 0xfffd;
    }
    guest.put_u16(AVAIL + 2, 2);
    let mut taken = Vec::new();
    while let Some(work) = next(&mut guest, &mut queue).unwrap() {
        taken.push(work.descriptor_index());
    }
    assert_eq!(taken, vec![2, 3, 0, 1, 2]);
}

#[test]
fn split_chain_may_be_as_long_as_the_queue() {
    let mut guest = Guest::new();
    let (mut queue, _) = ready_queue(&mut guest, 0, 0, 4);
    for i in 0..4u16 {
        let flags = if i < 3 { NEXT } else { 0 };
        guest.split(DESC + 16 * i as u64, 0x10000 * i as u64, i as u32, flags, i + 1);
    }
    guest.put_u16(AVAIL + 2, 1);
    let work = next(&mut guest, &mut queue).unwrap().unwrap();
    assert_eq!(work.payload.len(), 4);
    assert_eq!(work.payload[3], buffer(0x30000, 3, false));
}

#[test]
fn split_chain_with_a_cycle_is_too_long() {
    let mut guest = Guest::new();
    let (mut queue, _) = ready_queue(&mut guest, 0, 0, 4);
    guest.split(DESC, 0x10000, 1, NEXT, 4);
    guest.put_u16(AVAIL + 2, 1);
    assert_eq!(next(&mut guest, &mut queue), Err(QueueError::TooLong));
    assert_eq!(guest.log.len(), 4 + 4);
}

#[test]
fn long_queues_have_chains_of_at_most_128() {
    let mut guest = Guest::new();
    let (mut queue, _) = ready_queue(&mut guest, 0, 0, 256);
    for i in 0..256u16 {
        guest.split(DESC + 16 * i as u64, 0x10000, 1, NEXT, i + 1);
    }
    guest.split(DESC + 16 * 127, 0x10000, 1, 0, 0);
    guest.put_u16(AVAIL + 2, 2);
    assert_eq!(next(&mut guest, &mut queue).unwrap().unwrap().payload.len(), 128);
    guest.split(DESC + 16 * 127, 0x10000, 1, NEXT, 128);
    assert_eq!(next(&mut guest, &mut queue), Err(QueueError::TooLong));
}

#[test]
fn head_outside_the_table_is_a_memory_error() {
    let mut guest = Guest::new();
    let (mut queue, _) = ready_queue(&mut guest, 0, 0, 4);
    guest.put_u16(AVAIL + 2, 1);
    guest.put_u16(AVAIL + 6, 4);
    assert_eq!(next(&mut guest, &mut queue), Err(QueueError::Memory("out of range")));
}

#[test]
fn failed_accesses_end_the_search() {
    for number in 0..6 {
        let mut guest = Guest::new();
        let (mut queue, _) = ready_queue(&mut guest, 0, 0, 4);
        guest.split(DESC, 0x10000, 1, NEXT, 1);
        guest.put_u16(AVAIL + 2, 1);
        guest.failing.push(number);
        if number == 2 {
            continue;
        }
        assert_eq!(next(&mut guest, &mut queue), Err(QueueError::Memory("fault")));
        let last = match queue.inner {
            QueueGetWorkInner::Split(split) => split.last_avail_index,
            QueueGetWorkInner::Packed(_) => panic!("split"),
        };
        assert_eq!(last, if number < 2 { 0 } else { 1 });
    }
}

// ---- indirect tables

#[test]
fn split_indirect_table_is_read() {
    let mut guest = Guest::new();
    let (mut queue, _) = ready_queue(&mut guest, INDIRECT, 0, 4);
    guest.split(DESC, 0x10000, 1, NEXT, 1);
    guest.split(DESC + 16, TABLE, 48, IND, 0);
    guest.split(TABLE, 0x20000, 2, NEXT, 2);
    guest.split(TABLE + 32, 0x30000, 3, WRITE, 0);
    guest.put_u16(AVAIL + 2, 1);
    assert_eq!(
        next(&mut guest, &mut queue),
        Ok(Some(split_work(
            0,
            vec![
                buffer(0x10000, 1, false),
                buffer(0x20000, 2, false),
                buffer(0x30000, 3, true),
            ]
        )))
    );
    assert_eq!(
        guest.log[6],
        Request::Subrange { region: Region::Indirect, addr: TABLE, len: 48 }
    );
    assert_eq!(
        guest.log[7],
        Request::Read { region: Region::Indirect, offset: 0, len: 16 }
    );
    assert_eq!(
        guest.log[8],
        Request::Read { region: Region::Indirect, offset: 32, len: 16 }
    );
}

#[test]
fn indirect_flag_means_nothing_without_the_feature() {
    let mut guest = Guest::new();
    let (mut queue, _) = ready_queue(&mut guest, 0, 0, 4);
    guest.split(DESC, TABLE, 48, IND, 0);
    guest.put_u16(AVAIL + 2, 1);
    assert_eq!(
        next(&mut guest, &mut queue),
        Ok(Some(split_work(0, vec![buffer(TABLE, 48, false)])))
    );
}

#[test]
fn nested_table_is_refused() {
    let mut guest = Guest::new();
    let (mut queue, _) = ready_queue(&mut guest, INDIRECT, 0, 4);
    guest.split(DESC, TABLE, 48, IND, 0);
    guest.split(TABLE, 0x20000, 2, NEXT, 1);
    guest.split(TABLE + 16, 0x30000, 48, IND, 0);
    guest.put_u16(AVAIL + 2, 1);
    assert_eq!(next(&mut guest, &mut queue), Err(QueueError::DoubleIndirect));
}

#[test]
fn table_that_begins_with_a_nested_table_is_refused() {
    for bank1 in [0, PACKED] {
        let mut guest = Guest::new();
        let (mut queue, _) = ready_queue(&mut guest, INDIRECT, bank1, 4);
        if bank1 == 0 {
            guest.split(DESC, TABLE, 48, IND, 0);
            guest.split(TABLE, 0x20000, 16, IND, 1);
            guest.put_u16(AVAIL + 2, 1);
        } else {
            guest.packed(DESC, TABLE, 48, 7, lap(true) | IND);
            guest.packed(TABLE, 0x20000, 16, 0, IND);
        }
        assert_eq!(next(&mut guest, &mut queue), Err(QueueError::DoubleIndirect));
    }
}

#[test]
fn table_shorter_than_a_descriptor_is_a_memory_error() {
    let mut guest = Guest::new();
    let (mut queue, _) = ready_queue(&mut guest, INDIRECT, 0, 4);
    guest.split(DESC, TABLE, 15, IND, 0);
    guest.put_u16(AVAIL + 2, 1);
    assert_eq!(next(&mut guest, &mut queue), Err(QueueError::Memory("out of range")));
}

#[test]
fn table_with_a_cycle_is_too_long() {
    let mut guest = Guest::new();
    let (mut queue, _) = ready_queue(&mut guest, INDIRECT, 0, 4);
    guest.split(DESC, TABLE, 32, IND, 0);
    guest.split(TABLE, 0x20000, 2, NEXT, 1);
    guest.split(TABLE + 16, 0x20000, 2, NEXT, 0);
    guest.put_u16(AVAIL + 2, 1);
    assert_eq!(next(&mut guest, &mut queue), Err(QueueError::TooLong));
    assert_eq!(guest.log.len(), 4 + 2 + 2);
}

#[test]
fn small_table_may_be_entered_late() {
    for direct in [2u64, 3] {
        let mut guest = Guest::new();
        let (mut queue, _) = ready_queue(&mut guest, INDIRECT, 0, 8);
        for i in 0..direct {
            guest.split(DESC + 16 * i, 0x10000 + i, 1, NEXT, i as u16 + 1);
        }
        guest.split(DESC + 16 * direct, TABLE, 32, IND, 0);
        guest.split(TABLE, 0x20000, 2, NEXT, 1);
        guest.split(TABLE + 16, 0x30000, 3, 0, 0);
        guest.put_u16(AVAIL + 2, 2);
        let work = next(&mut guest, &mut queue).unwrap().unwrap();
        assert_eq!(work.payload.len() as u64, direct + 2);
        assert_eq!(work.payload[direct as usize], buffer(0x20000, 2, false));
        assert_eq!(work.payload[direct as usize + 1], buffer(0x30000, 3, false));

        // A cycle in it is given up after 128 descriptors.
        guest.split(TABLE + 16, 0x30000, 3, NEXT, 0);
        guest.log.clear();
        assert_eq!(next(&mut guest, &mut queue), Err(QueueError::TooLong));
        assert_eq!(guest.log.len(), 4 + 2 + 128);
    }
}

#[test]
fn small_table_entered_early_limits_the_chain() {
    let mut guest = Guest::new();
    let (mut queue, _) = ready_queue(&mut guest, INDIRECT, 0, 8);
    guest.split(DESC, 0x10000, 1, NEXT, 1);
    guest.split(DESC + 16, TABLE, 32, IND, 0);
    guest.split(TABLE, 0x20000, 2, NEXT, 1);
    guest.split(TABLE + 16, 0x30000, 3, 0, 0);
    guest.put_u16(AVAIL + 2, 1);
    assert_eq!(next(&mut guest, &mut queue), Err(QueueError::TooLong));
}

#[test]
fn table_of_one_that_links_to_itself_is_too_long() {
    let mut guest = Guest::new();
    let (queue, _) = ready_queue(&mut guest, INDIRECT, 0, 8);
    guest.split(DESC, 0x10000, 1, NEXT, 1);
    guest.split(DESC + 16, TABLE, 16, IND, 0);
    guest.split(TABLE, 0x20000, 2, NEXT, 0);
    let mut chain = DescriptorChain::new(&queue, true, 0);
    for call in 1..=128 {
        let mut step = chain.next_descriptor::<Fault>(Event::Start);
        let result = loop {
            match step {
                Step::Done(result) => break result,
                Step::Wait { at, request } => {
                    let reply = guest.perform(request);
                    assert!(chain.accepts(at, &reply));
                    step = chain.next_descriptor(Event::Reply { at, reply });
                }
            }
        };
        if call < 128 {
            assert!(matches!(result, Ok(Some(_))));
        } else {
            assert_eq!(result, Err(QueueError::TooLong));
        }
    }
}

#[test]
fn chain_of_128_with_a_table_at_its_end() {
    let mut guest = Guest::new();
    let (mut queue, _) = ready_queue(&mut guest, INDIRECT, 0, 256);
    for i in 0..100u16 {
        guest.split(DESC + 16 * i as u64, 0x10000 + i as u64, 1, NEXT, i + 1);
    }
    guest.split(DESC + 1600, TABLE, 16 * 200, IND, 0);
    for i in 0..28u16 {
        let flags = if i < 27 { NEXT } else { 0 };
        guest.split(TABLE + 16 * i as u64, 0x20000 + i as u64, 2, flags, i + 1);
    }
    guest.put_u16(AVAIL + 2, 2);
    let work = next(&mut guest, &mut queue).unwrap().unwrap();
    assert_eq!(work.payload.len(), 128);
    assert_eq!(work.payload[99], buffer(0x10063, 1, false));
    assert_eq!(work.payload[100], buffer(0x20000, 2, false));
    assert_eq!(work.payload[127], buffer(0x2001b, 2, false));
    guest.split(TABLE + 16 * 27, 0x20000, 2, NEXT, 28);
    assert_eq!(next(&mut guest, &mut queue), Err(QueueError::TooLong));
}

#[test]
fn work_is_completed_where_it_was_taken_from() {
    let mut guest = Guest::new();
    let (mut get, mut done) = ready_queue(&mut guest, 0, PACKED, 8);
    for i in 0..6u64 {
        let flags = if i % 2 == 0 { NEXT } else { 0 };
        guest.packed(DESC + 16 * i, 0x10000, 1, 10 + i as u16, lap(true) | flags);
    }
    let mut works = Vec::new();
    while let Some(work) = next(&mut guest, &mut get).unwrap() {
        works.push(work);
    }
    assert_eq!(works.len(), 3);
    for work in &works {
        complete(&mut guest, &mut done, work, 5).unwrap();
        let at = DESC + 16 * work.descriptor_index() as u64;
        assert_eq!(guest.get_u16(at + 12), 11 + work.descriptor_index());
        assert_eq!(guest.get_u16(at + 14), 0x8080);
    }
    assert_eq!(packed_state(&get), completed_state(&done));
}

#[test]
fn huge_table_counts_65535_octets() {
    let mut guest = Guest::new();
    let (mut queue, _) = ready_queue(&mut guest, INDIRECT, 0, 4);
    guest.split(DESC, TABLE, 0x20000, IND, 0);
    guest.split(TABLE, 0x20000, 2, NEXT, 4095 + 4094);
    guest.split(TABLE + 16 * 4094, 0x30000, 3, 0, 0);
    guest.put_u16(AVAIL + 2, 1);
    let work = next(&mut guest, &mut queue).unwrap().unwrap();
    assert_eq!(work.payload, vec![buffer(0x20000, 2, false), buffer(0x30000, 3, false)]);
    assert_eq!(
        guest.log[7],
        Request::Read { region: Region::Indirect, offset: 16 * 4094, len: 16 }
    );
}

// ---- completing on split queues

#[test]
fn split_completion_writes_the_used_ring() {
    let mut guest = Guest::new();
    let (_, mut queue) = ready_queue(&mut guest, 0, 0, 4);
    let work = split_work(3, Vec::new());
    assert_eq!(complete(&mut guest, &mut queue, &work, 0x12345), Ok(true));
    assert_eq!(
        guest.log,
        vec![
            Request::Write {
                region: Region::Used,
                offset: 4,
                value: Plain::UsedElement(UsedElement { id: 3, len: 0x12345 }),
            },
            Request::Fence(Fence::Release),
            Request::Write { region: Region::Used, offset: 2, value: Plain::U16(1) },
            Request::Fence(Fence::SeqCst),
            Request::Read { region: Region::Available, offset: 0, len: 2 },
        ]
    );
    assert_eq!(guest.get_u16(USED + 2), 1);
    assert_eq!(guest.get_u32(USED + 4), 3);
    assert_eq!(guest.get_u32(USED + 8), 0x12345);

    guest.put_u16(AVAIL, 1);
    assert_eq!(complete(&mut guest, &mut queue, &split_work(1, Vec::new()), 7), Ok(false));
    assert_eq!(guest.get_u16(USED + 2), 2);
    assert_eq!(guest.get_u32(USED + 12), 1);
    assert_eq!(guest.get_u32(USED + 16), 7);
}

#[test]
fn last_completions_are_in_the_used_ring() {
    let mut guest = Guest::new();
    let (_, mut queue) = ready_queue(&mut guest, 0, 0, 4);
    for i in 0..7u16 {
        let work = split_work(10 + i, Vec::new());
        complete(&mut guest, &mut queue, &work, 100 + i as u32).unwrap();
    }
    assert_eq!(guest.get_u16(USED + 2), 7);
    for i in 3..7u64 {
        let at = USED + 4 + 8 * (i % 4);
        assert_eq!(guest.get_u32(at), 10 + i as u32);
        assert_eq!(guest.get_u32(at + 4), 100 + i as u32);
    }
}

#[test]
fn split_completion_signals_at_the_event_index() {
    let mut guest = Guest::new();
    let (_, mut queue) = ready_queue(&mut guest, EVENT_IDX, 0, 4);
    let work = split_work(0, Vec::new());
    guest.put_u16(AVAIL + 4 + 8, 1);
    assert_eq!(complete(&mut guest, &mut queue, &work, 0), Ok(false));
    assert_eq!(complete(&mut guest, &mut queue, &work, 0), Ok(true));
    assert_eq!(complete(&mut guest, &mut queue, &work, 0), Ok(false));
    assert_eq!(guest.log[4], Request::Read { region: Region::Available, offset: 12, len: 2 });
}

#[test]
fn split_completion_index_runs_over() {
    let mut guest = Guest::new();
    let (_, mut queue) = ready_queue(&mut guest, 0, 0, 4);
    if let QueueCompleteWorkInner::Split(split) = &mut queue.inner {
        split.last_used_index = 0xffff;
    }
    let work = split_work(2, Vec::new());
    assert_eq!(complete(&mut guest, &mut queue, &work, 5), Ok(true));
    assert_eq!(guest.get_u16(USED + 2), 0);
    assert_eq!(guest.get_u32(USED + 4 + 8 * 3), 2);
    assert_eq!(complete(&mut guest, &mut queue, &work, 5), Ok(true));
    assert_eq!(guest.get_u32(USED + 4), 2);
}

#[test]
fn failed_accesses_end_a_split_completion() {
    for (number, expected) in [(0usize, 0u16), (2, 1), (4, 1)] {
        let mut guest = Guest::new();
        let (_, mut queue) = ready_queue(&mut guest, 0, 0, 4);
        guest.failing.push(number);
        let work = split_work(2, Vec::new());
        assert_eq!(complete(&mut guest, &mut queue, &work, 5), Err(QueueError::Memory("fault")));
        match queue.inner {
            QueueCompleteWorkInner::Split(split) => assert_eq!(split.last_used_index, expected),
            QueueCompleteWorkInner::Packed(_) => panic!("split"),
        }
    }
}

// ---- packed queues

fn packed_state(queue: &QueueCoreGetWork) -> (u16, bool) {
    match queue.inner {
        QueueGetWorkInner::Packed(packed) => (packed.next_avail_index, packed.wrapped_bit),
        QueueGetWorkInner::Split(_) => panic!("packed"),
    }
}

fn completed_state(queue: &QueueCoreCompleteWork) -> (u16, bool) {
    match queue.inner {
        QueueCompleteWorkInner::Packed(packed) => (packed.next_index, packed.wrapped_bit),
        QueueCompleteWorkInner::Split(_) => panic!("packed"),
    }
}

#[test]
fn packed_chain_is_handed_out() {
    let mut guest = Guest::new();
    let (mut queue, _) = ready_queue(&mut guest, 0, PACKED, 4);
    guest.packed(DESC, 0x10000, 10, 11, lap(true) | NEXT);
    guest.packed(DESC + 16, 0x20000, 20, 22, lap(true) | WRITE);
    assert_eq!(
        next(&mut guest, &mut queue),
        Ok(Some(packed_work(
            0,
            22,
            2,
            vec![buffer(0x10000, 10, false), buffer(0x20000, 20, true)]
        )))
    );
    assert_eq!(packed_state(&queue), (2, true));
    let ring = |offset| Request::Read { region: Region::PackedRing, offset, len: 16 };
    let desc = |offset| Request::Read { region: Region::Descriptors, offset, len: 16 };
    assert_eq!(
        guest.log,
        vec![
            Request::Write { region: Region::DeviceEvent, offset: 0, value: Plain::U32(0x10000) },
            Request::Fence(Fence::Acquire),
            ring(0),
            desc(0),
            desc(16),
            desc(0),
            desc(16),
        ]
    );
}

#[test]
fn packed_queue_without_work() {
    let mut guest = Guest::new();
    let (mut queue, _) = ready_queue(&mut guest, 0, PACKED, 4);
    let before = queue;
    assert_eq!(next(&mut guest, &mut queue), Ok(None));
    assert_eq!(queue, before);
    let ring = Request::Read { region: Region::PackedRing, offset: 0, len: 16 };
    let event = |bits| Request::Write {
        region: Region::DeviceEvent,
        offset: 0,
        value: Plain::U32(bits),
    };
    assert_eq!(
        guest.log,
        vec![
            event(0x10000),
            Request::Fence(Fence::Acquire),
            ring,
            event(0),
            Request::Fence(Fence::SeqCst),
            ring,
        ]
    );
    // A descriptor that has been used in this lap is no work either.
    guest.packed(DESC, 0, 0, 0, 0x8080);
    assert_eq!(next(&mut guest, &mut queue), Ok(None));
}

#[test]
fn packed_search_begins_anew_when_work_comes_late() {
    let mut guest = Guest::new();
    let (mut queue, _) = ready_queue(&mut guest, 0, PACKED, 4);
    let mut step = queue.try_next_work::<Fault>(Event::Start);
    let mut performed = 0;
    let result = loop {
        match step {
            Step::Done(result) => break result,
            Step::Wait { at, request } => {
                if performed == 4 {
                    guest.packed(DESC, 0x10000, 10, 5, lap(true));
                }
                let reply = guest.perform(request);
                performed += 1;
                step = queue.try_next_work(Event::Reply { at, reply });
            }
        }
    };
    assert_eq!(result, Ok(Some(packed_work(0, 5, 1, vec![buffer(0x10000, 10, false)]))));
    // Off, looked, on, looked again, off, looked, read and counted.
    assert_eq!(performed, 6 + 3 + 2);
    assert_eq!(guest.bytes[(DESC + 64 + 2) as usize], 1);
}

#[test]
fn packed_queue_changes_its_lap() {
    let mut guest = Guest::new();
    let (mut get, mut done) = ready_queue(&mut guest, 0, PACKED, 4);
    let mut bit = true;
    let mut at = 0u64;
    for count in [1u64, 2, 3, 3, 3, 1, 2] {
        for i in 0..count {
            let place = (at + i) % 4;
            let of_lap = if at + i < 4 { bit } else { !bit };
            let flags = lap(of_lap) | if i + 1 < count { NEXT } else { 0 };
            guest.packed(DESC + 16 * place, 0x10000, 1, 100 + i as u16, flags);
        }
        let work = next(&mut guest, &mut get).unwrap().unwrap();
        assert_eq!(work.payload.len(), count as usize);
        assert_eq!(complete(&mut guest, &mut done, &work, 9), Ok(true));
        // The used descriptor is at the place where the work began.
        let flags = guest.get_u16(DESC + 16 * at + 14);
        assert_eq!(flags, if bit { 0x8080 } else { 0 });
        assert_eq!(guest.get_u16(DESC + 16 * at + 12), 100 + count as u16 - 1);
        assert_eq!(guest.get_u32(DESC + 16 * at + 8), 9);
        at += count;
        if at >= 4 {
            at -= 4;
            bit = !bit;
        }
        assert_eq!(packed_state(&get), (at as u16, bit));
        assert_eq!(completed_state(&done), (at as u16, bit));
    }
}

#[test]
fn chain_of_the_whole_ring_stays_in_its_lap() {
    let mut guest = Guest::new();
    let (mut get, mut done) = ready_queue(&mut guest, 0, PACKED, 2);
    guest.packed(DESC, 0x10000, 1, 1, lap(true) | NEXT);
    guest.packed(DESC + 16, 0x10000, 1, 2, lap(true));
    let work = next(&mut guest, &mut get).unwrap().unwrap();
    assert_eq!(work.context, packed_work(0, 2, 2, Vec::new()).context);
    assert_eq!(packed_state(&get), (0, true));
    complete(&mut guest, &mut done, &work, 0).unwrap();
    assert_eq!(completed_state(&done), (0, true));
}

#[test]
fn packed_table_is_consumed_without_next_flags() {
    let mut guest = Guest::new();
    let (mut queue, _) = ready_queue(&mut guest, INDIRECT, PACKED, 4);
    guest.packed(DESC, TABLE, 48, 7, lap(true) | IND);
    guest.packed(TABLE, 0x10000, 1, 0, 0);
    guest.packed(TABLE + 16, 0x20000, 2, 0, WRITE);
    guest.packed(TABLE + 32, 0x30000, 3, 0, 0);
    assert_eq!(
        next(&mut guest, &mut queue),
        Ok(Some(packed_work(
            0,
            7,
            1,
            vec![
                buffer(0x10000, 1, false),
                buffer(0x20000, 2, true),
                buffer(0x30000, 3, false),
            ]
        )))
    );
    assert_eq!(packed_state(&queue), (1, true));
}

#[test]
fn packed_table_that_links_back_is_too_long() {
    let mut guest = Guest::new();
    let (mut queue, _) = ready_queue(&mut guest, INDIRECT, PACKED, 4);
    guest.packed(DESC, TABLE, 32, 7, lap(true) | IND);
    guest.packed(TABLE, 0x10000, 1, 0, 0);
    guest.packed(TABLE + 16, 0x20000, 2, 0, NEXT);
    assert_eq!(next(&mut guest, &mut queue), Err(QueueError::TooLong));
    assert_eq!(packed_state(&queue), (0, true));
}

#[test]
fn counting_ignores_tables() {
    let mut guest = Guest::new();
    let (mut queue, _) = ready_queue(&mut guest, INDIRECT, PACKED, 4);
    guest.packed(DESC, TABLE, 16, 7, lap(true) | IND | NEXT);
    guest.packed(DESC + 16, 0, 0, 8, lap(true));
    guest.packed(TABLE, 0x10000, 1, 0, 0);
    assert_eq!(
        next(&mut guest, &mut queue),
        Ok(Some(packed_work(0, 8, 2, vec![buffer(0x10000, 1, false)])))
    );
    assert_eq!(packed_state(&queue), (2, true));
}

#[test]
fn failed_read_ends_the_counting() {
    // Off, fence, look, entry, table, first of table; then the count begins.
    for number in [6usize, 7] {
        let mut guest = Guest::new();
        let (mut queue, _) = ready_queue(&mut guest, INDIRECT, PACKED, 4);
        guest.packed(DESC, TABLE, 16, 7, lap(true) | IND | NEXT);
        guest.packed(DESC + 16, 0, 0, 8, lap(true));
        guest.packed(TABLE, 0x10000, 1, 0, 0);
        guest.failing.push(number);
        assert_eq!(next(&mut guest, &mut queue), Err(QueueError::Memory("fault")));
        assert_eq!(guest.log.len(), number + 1);
        assert_eq!(packed_state(&queue), (0, true));
    }
}

#[test]
fn ring_that_links_around_is_too_long() {
    let mut guest = Guest::new();
    let (mut queue, _) = ready_queue(&mut guest, INDIRECT, PACKED, 2);
    guest.packed(DESC, TABLE, 16, 7, lap(true) | IND | NEXT);
    guest.packed(DESC + 16, 0x10000, 1, 8, lap(true) | NEXT);
    guest.packed(TABLE, 0x10000, 1, 0, 0);
    assert_eq!(next(&mut guest, &mut queue), Err(QueueError::TooLong));
    assert_eq!(packed_state(&queue), (0, true));
    // Six accesses up to the table's descriptor, and two reads for the count.
    assert_eq!(guest.log.len(), 6 + 2);
}

#[test]
fn packed_completion_signals_as_the_driver_wants() {
    let event = |guest: &mut Guest, bits: u32| guest.put(DESC + 64 + 4, &bits.to_le_bytes());
    for (bank0, bits, expected) in [
        (0, 0u32, true),
        (0, 0x10000, false),
        (0, 0x20000 | 3, true),
        (0, 0x30000, true),
        (EVENT_IDX, 0, true),
        (EVENT_IDX, 0x10000, false),
        (EVENT_IDX, 0x20000 | 0x8000, true),
        (EVENT_IDX, 0x20000, false),
        (EVENT_IDX, 0x20000 | 0x8000 | 1, false),
        (EVENT_IDX, 0x30000, true),
    ] {
        let mut guest = Guest::new();
        let (_, mut queue) = ready_queue(&mut guest, bank0, PACKED, 4);
        event(&mut guest, bits);
        let work = packed_work(0, 5, 1, Vec::new());
        assert_eq!(complete(&mut guest, &mut queue, &work, 3), Ok(expected));
        assert_eq!(completed_state(&queue), (1, true));
        assert_eq!(
            guest.log,
            vec![
                Request::Write {
                    region: Region::PackedRing,
                    offset: 0,
                    value: Plain::PackedDescriptor(PackedDescriptor {
                        address: 0,
                        length: 3,
                        buffer_id: 5,
                        flags: DescriptorFlags { bits: 0x8080 },
                    }),
                },
                Request::Fence(Fence::SeqCst),
                Request::Read { region: Region::DriverEvent, offset: 0, len: 4 },
            ]
        );
    }
}

#[test]
fn failed_accesses_end_a_packed_completion() {
    for number in [0usize, 2] {
        let mut guest = Guest::new();
        let (_, mut queue) = ready_queue(&mut guest, 0, PACKED, 4);
        guest.failing.push(number);
        let work = packed_work(0, 5, 1, Vec::new());
        assert_eq!(complete(&mut guest, &mut queue, &work, 3), Err(QueueError::Memory("fault")));
        assert_eq!(completed_state(&queue), (0, true));
    }
}

// ---- replies

#[test]
fn replies_are_told_from_what_memory_cannot_say() {
    let read = Request::Read { region: Region::Used, offset: 0, len: 2 };
    assert!(is_answer::<Fault>(&read, &Ok(vec![1, 2])));
    assert!(!is_answer::<Fault>(&read, &Ok(vec![1, 2, 3])));
    assert!(is_answer::<Fault>(&read, &Err("fault")));
    let fence = Request::Fence(Fence::Acquire);
    assert!(is_answer::<Fault>(&fence, &Ok(Vec::new())));
    assert!(!is_answer::<Fault>(&fence, &Err("fault")));
    let range = |addr| Request::Subrange { region: Region::Used, addr, len: 16 };
    assert!(is_answer::<Fault>(&range(u64::MAX - 16), &Ok(Vec::new())));
    assert!(!is_answer::<Fault>(&range(u64::MAX - 15), &Ok(Vec::new())));
    assert!(is_answer::<Fault>(&range(u64::MAX), &Err("fault")));
}

#[test]
fn replies_to_a_chain_are_told_from_what_memory_cannot_say() {
    let mut guest = Guest::new();
    let (queue, _) = ready_queue(&mut guest, 0, 0, 4);
    let mut reader = queue.reader(1);
    let data: Result<Vec<u8>, Fault> = Ok(vec![0; 16]);
    assert!(reader.chain.accepts(ChainAt::Entry, &data));
    assert!(reader.chain.accepts(ChainAt::Entry, &Err("fault")));
    assert!(!reader.chain.accepts::<Fault>(ChainAt::Entry, &Ok(vec![0; 15])));
    // A table that is too short for a descriptor holds none.
    reader.chain.indirect_queue = true;
    reader.chain.queue_size = 0;
    assert!(!reader.chain.accepts(ChainAt::Entry, &data));
}

#[test]
fn walk_that_goes_on_after_it_was_given_up() {
    let mut guest = Guest::new();
    let (queue, _) = ready_queue(&mut guest, 0, 0, 4);
    let mut chain = DescriptorChain::new(&queue, false, 0);
    let mut linked = vec![0; 16];
    linked[12] = 1;
    for (num_read, too_long) in [
        (2, false),
        (3, true),
        (4, false),
        (126, false),
        (127, true),
        (128, true),
        (u16::MAX, true),
    ] {
        chain.num_read = num_read;
        let reply: Result<Vec<u8>, Fault> = Ok(linked.clone());
        let step = chain.next_descriptor(Event::Reply { at: ChainAt::Entry, reply });
        if too_long {
            assert_eq!(step, Step::Done(Err(QueueError::TooLong)));
        } else {
            assert!(matches!(step, Step::Done(Ok(Some(_)))));
        }
    }
    assert_eq!(chain.num_read, u16::MAX);
}

#[test]
fn ring_positions_beyond_65535_are_not_accepted() {
    let mut guest = Guest::new();
    let (_, done) = ready_queue(&mut guest, 0, PACKED, 4);
    let work = packed_work(0, 0, 0xffff, Vec::new());
    let at = Completion::Packed(PackedCompletion::Interest);
    let request = Request::Read { region: Region::DriverEvent, offset: 0, len: 4 };
    let reply: Result<Vec<u8>, Fault> = Ok(vec![0; 4]);
    assert!(done.accepts(&work, 0, &at, &request, &reply));
    let mut moved = done;
    if let QueueCompleteWorkInner::Packed(packed) = &mut moved.inner {
        packed.next_index = 1;
    }
    assert!(!moved.accepts(&work, 0, &at, &request, &reply));
}

// ---- layout

#[test]
fn values_have_their_octets() {
    assert_eq!(Plain::U16(0x1234).bytes(), vec![0x34, 0x12]);
    assert_eq!(Plain::U32(0x12345678).bytes(), vec![0x78, 0x56, 0x34, 0x12]);
    assert_eq!(
        Plain::UsedElement(UsedElement { id: 1, len: 0x200 }).bytes(),
        vec![1, 0, 0, 0, 0, 2, 0, 0]
    );
    let descriptor = PackedDescriptor {
        address: 0x1122334455667788,
        length: 0x99aabbcc,
        buffer_id: 0xddee,
        flags: DescriptorFlags { bits: 0x8081 },
    };
    let bytes = Plain::PackedDescriptor(descriptor).bytes();
    assert_eq!(
        bytes,
        vec![
            0x88, 0x77, 0x66, 0x55, 0x44, 0x33, 0x22, 0x11, 0xcc, 0xbb, 0xaa, 0x99, 0xee, 0xdd,
            0x81, 0x80
        ]
    );
    assert_eq!(PackedDescriptor::read(&bytes), descriptor);
}

#[test]
fn split_descriptor_is_read() {
    let bytes = vec![1, 0, 0, 0, 0, 0, 0, 0x80, 2, 0, 0, 0, 5, 0, 0x34, 0x12];
    let descriptor = SplitDescriptor::read(&bytes);
    assert_eq!(descriptor.address, 0x8000_0000_0000_0001);
    assert_eq!(descriptor.length, 2);
    assert!(descriptor.flags.next() && descriptor.flags.indirect() && !descriptor.flags.write());
    assert_eq!(descriptor.next, 0x1234);
}

#[test]
fn flags_are_single_bits() {
    let flags = DescriptorFlags::new().with_available(true).with_used(true);
    assert_eq!(flags.bits, 0x8080);
    assert!(flags.available() && flags.used());
    assert_eq!(flags.with_available(false).bits, 0x8000);
    assert_eq!(flags.with_used(false).bits, 0x0080);
    assert_eq!(UsedFlags::new().bits, 0);
    assert_eq!(UsedFlags::new().with_no_notify(true).bits, 1);
    let features = features(INDIRECT, PACKED);
    assert!(features.bank0().ring_indirect_desc() && !features.bank0().ring_event_idx());
    assert!(features.bank1().ring_packed());
}

#[test]
fn event_suppression_fields() {
    let event = PackedEventSuppresion { bits: 0x2_9234 };
    assert_eq!(event.flags(), EventSuppressionFlags::DescriptorIndex);
    assert_eq!(event.offset(), 0x1234);
    assert!(event.wrap());
    let disabled = event.with_flags(EventSuppressionFlags::Disabled);
    assert_eq!(disabled.bits, 0x1_9234);
    assert_eq!(
        PackedEventSuppresion::new()
            .with_flags(EventSuppressionFlags::Reserved)
            .flags(),
        EventSuppressionFlags::Reserved
    );
}
