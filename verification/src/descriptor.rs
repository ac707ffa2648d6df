//! Descriptors, and the chains that a driver links them into.

use crate::layout::{DescriptorFlags, PackedDescriptor, SplitDescriptor, DESCRIPTOR_SIZE};
use crate::memory;
use crate::memory::{Event, QueueError, Region, Request, Step};
use vstd::prelude::*;

verus! {

/// The most descriptors that a chain may have.
pub const MAX_DESC_CHAIN: u16 = 128;

/// A descriptor, split or packed, with the index that the chain goes on at.
#[derive(Debug, Clone, Copy, PartialEq, Eq)]
pub struct QueueDescriptor {
    pub address: u64,
    pub length: u32,
    pub flags: DescriptorFlags,
    pub buffer_id: Option<u16>,
    pub next: Option<u16>,
}

/// A buffer that a descriptor chain hands to the device.
#[derive(Debug, Clone, Copy, PartialEq, Eq)]
pub struct VirtioQueuePayload {
    pub writeable: bool,
    pub address: u64,
    pub length: u32,
}

/// The buffer of a descriptor.
pub open spec fn payload_of(descriptor: QueueDescriptor) -> VirtioQueuePayload {
    VirtioQueuePayload {
        writeable: descriptor.flags.write(),
        address: descriptor.address,
        length: descriptor.length,
    }
}

/// The index after `index`, in 16 bits.
pub open spec fn following(index: u16) -> u16 {
    ((index + 1) % 0x1_0000) as u16
}

/// The descriptor that the sixteen bytes at `index` hold. A split descriptor
/// names the index that follows. A packed descriptor is followed by the next
/// index: where its flag says so, and, in an indirect table with
/// `active_indirect_len` entries, as long as there are entries.
pub open spec fn descriptor_of(
    packed: bool,
    data: Seq<u8>,
    index: u16,
    active_indirect_len: Option<u16>,
) -> QueueDescriptor {
    if packed {
        let raw = PackedDescriptor::of_bytes(data);
        QueueDescriptor {
            address: raw.address,
            length: raw.length,
            flags: raw.flags,
            buffer_id: Some(raw.buffer_id),
            next: if raw.flags.next() || (active_indirect_len matches Some(len) && following(index)
                < len) {
                Some(following(index))
            } else {
                None
            },
        }
    } else {
        let raw = SplitDescriptor::of_bytes(data);
        QueueDescriptor {
            address: raw.address,
            length: raw.length,
            flags: raw.flags,
            buffer_id: None,
            next: if raw.flags.next() {
                Some(raw.next)
            } else {
                None
            },
        }
    }
}

/// Where the descriptor at `index` of a table lies.
pub fn descriptor_offset(index: u16) -> (offset: u64)
    ensures
        offset == DESCRIPTOR_SIZE * index,
{
    index as u64 * DESCRIPTOR_SIZE
}

/// The request for the descriptor at `index` of a table.
pub open spec fn entry_request(region: Region, index: u16) -> Request {
    Request::Read { region, offset: (DESCRIPTOR_SIZE * index) as u64, len: DESCRIPTOR_SIZE }
}

/// Asks for the descriptor at `index` of a table.
pub fn read_descriptor(region: Region, index: u16) -> (request: Request)
    ensures
        request == entry_request(region, index),
{
    Request::Read { region, offset: descriptor_offset(index), len: DESCRIPTOR_SIZE }
}

/// Decodes the descriptor that was read at `index`. `active_indirect_len` is
/// the number of entries of the indirect table, where it was read from one.
pub fn descriptor(
    packed: bool,
    data: &Vec<u8>,
    index: u16,
    active_indirect_len: Option<u16>,
) -> (descriptor: QueueDescriptor)
    requires
        data@.len() == DESCRIPTOR_SIZE,
    ensures
        descriptor == descriptor_of(packed, data@, index, active_indirect_len),
{
    if packed {
        let raw = PackedDescriptor::read(data);
        QueueDescriptor {
            address: raw.address,
            length: raw.length,
            flags: raw.flags,
            buffer_id: Some(raw.buffer_id),
            next: if raw.flags.next() {
                Some(index.wrapping_add(1))
            } else if let Some(active_indirect_len) = active_indirect_len {
                // Packed descriptors consume all of the indirect descriptors,
                // even when the next flag is not set.
                let next: u16 = index.wrapping_add(1);
                if next < active_indirect_len {
                    Some(next)
                } else {
                    None
                }
            } else {
                None
            },
        }
    } else {
        let raw = SplitDescriptor::read(data);
        QueueDescriptor {
            address: raw.address,
            length: raw.length,
            flags: raw.flags,
            buffer_id: None,
            next: if raw.flags.next() {
                Some(raw.next)
            } else {
                None
            },
        }
    }
}

/// Where the reading of a descriptor waits.
#[derive(Debug, Clone, Copy, PartialEq, Eq)]
pub enum ChainAt {
    /// For the descriptor at the current index.
    Entry,
    /// For the indirect table that the descriptor at the current index names.
    Table { address: u64, length: u32 },
    /// For the first descriptor of the indirect table.
    FirstOfTable,
}

/// A walk along a descriptor chain.
#[derive(Debug, Clone, Copy, PartialEq, Eq)]
pub struct DescriptorChain {
    /// Whether the descriptors are packed.
    pub packed: bool,
    /// The number of descriptors of the table that the walk is in.
    pub queue_size: u16,
    /// Whether a descriptor may lead into an indirect table.
    pub indirect_support: bool,
    /// Whether the walk is in an indirect table.
    pub indirect_queue: bool,
    /// The index of the next descriptor; `None` at the end of the chain.
    pub descriptor_index: Option<u16>,
    /// How many descriptors have been read, as far as 16 bits count.
    pub num_read: u16,
    /// How many descriptors a chain in the table that the walk is in may have.
    pub max_desc_chain: u16,
}

/// How many descriptors a chain in a table of `queue_size` may have.
pub open spec fn chain_limit(queue_size: u16) -> u16 {
    if queue_size < MAX_DESC_CHAIN {
        queue_size
    } else {
        MAX_DESC_CHAIN
    }
}

/// How many descriptors a chain in a table of `queue_size` may have.
pub fn limit_chain(queue_size: u16) -> (limit: u16)
    ensures
        limit == chain_limit(queue_size),
{
    if queue_size < MAX_DESC_CHAIN {
        queue_size
    } else {
        MAX_DESC_CHAIN
    }
}

/// How many descriptors an indirect table of `length` bytes has, of which at
/// most 65535 bytes count.
pub open spec fn table_size(length: u32) -> u16 {
    ((if length < 0xffff {
        length as int
    } else {
        0xffff
    }) / 16) as u16
}

impl DescriptorChain {
    /// The table that the walk is in.
    pub open spec fn table(self) -> Region {
        if self.indirect_queue {
            Region::Indirect
        } else {
            Region::Descriptors
        }
    }

    /// The number of entries of the indirect table, if the walk is in one.
    pub open spec fn active_indirect_len(self) -> Option<u16> {
        if self.indirect_queue {
            Some(self.queue_size)
        } else {
            None
        }
    }

    /// Only an indirect table can be too short for a descriptor.
    pub open spec fn wf(self) -> bool {
        self.indirect_queue || self.queue_size > 0
    }

    /// Whether the walk can wait at `at`.
    pub open spec fn waits_at(self, at: ChainAt) -> bool {
        match at {
            ChainAt::Entry => self.descriptor_index is Some,
            ChainAt::Table { address, length } => !self.indirect_queue,
            ChainAt::FirstOfTable => self.indirect_queue && self.descriptor_index == Some(0u16),
        }
    }

    /// The request whose reply the walk waits for at `at`.
    pub open spec fn request_at(self, at: ChainAt) -> Request {
        match at {
            ChainAt::Entry => entry_request(self.table(), self.descriptor_index->0),
            ChainAt::Table { address, length } => Request::Subrange {
                region: Region::Indirect,
                addr: address,
                len: length as u64,
            },
            ChainAt::FirstOfTable => entry_request(Region::Indirect, 0),
        }
    }

    /// The descriptor that the reply at `at` brings, as the table holds it.
    pub open spec fn raw<E>(self, at: ChainAt, reply: Result<Seq<u8>, E>) -> Option<
        QueueDescriptor,
    > {
        match (at, reply) {
            (ChainAt::Entry, Ok(data)) => Some(
                descriptor_of(
                    self.packed,
                    data,
                    self.descriptor_index->0,
                    self.active_indirect_len(),
                ),
            ),
            (ChainAt::FirstOfTable, Ok(data)) => Some(
                descriptor_of(self.packed, data, 0, Some(self.queue_size)),
            ),
            _ => None,
        }
    }

    /// Whether a descriptor stands for an indirect table.
    pub open spec fn leads_to_table(self, descriptor: QueueDescriptor) -> bool {
        self.indirect_support && descriptor.flags.indirect()
    }

    /// What guest memory owes at `at`: a reply to the request, and no
    /// descriptor from a table that holds none.
    pub open spec fn answers<E>(self, at: ChainAt, reply: Result<Seq<u8>, E>) -> bool {
        &&& memory::answers(self.request_at(at), reply)
        &&& self.raw(at, reply) is Some ==> self.queue_size > 0
    }

    /// The walk after it has read `descriptor`.
    pub open spec fn past(self, descriptor: QueueDescriptor) -> Self {
        DescriptorChain {
            num_read: if self.num_read < u16::MAX {
                (self.num_read + 1) as u16
            } else {
                u16::MAX
            },
            descriptor_index: match descriptor.next {
                Some(next) => Some((next as int % self.queue_size as int) as u16),
                None => None,
            },
            ..self
        }
    }

    /// The walk after it has entered an indirect table of `length` bytes.
    pub open spec fn entered(self, length: u32) -> Self {
        DescriptorChain {
            indirect_queue: true,
            descriptor_index: Some(0),
            queue_size: table_size(length),
            max_desc_chain: chain_limit(table_size(length)),
            ..self
        }
    }

    /// Whether the chain goes on although it has had as many descriptors as a
    /// chain in its table may have, or as any chain may have. A chain that had
    /// more than a chain in a table may have when it entered the table is held
    /// to the latter alone.
    pub open spec fn too_long(self) -> bool {
        &&& self.descriptor_index is Some
        &&& self.num_read == self.max_desc_chain || self.num_read >= MAX_DESC_CHAIN
    }

    /// What the reading of the next descriptor does first.
    pub open spec fn next_start<E>(self) -> Step<ChainAt, Option<QueueDescriptor>, E> {
        if self.descriptor_index is None {
            Step::Done(Ok(None))
        } else {
            Step::Wait { at: ChainAt::Entry, request: self.request_at(ChainAt::Entry) }
        }
    }

    /// What the reading of a descriptor does once it has read `descriptor`: it
    /// hands the descriptor out, unless the chain is too long, or takes the
    /// indirect table that the descriptor stands for, unless it is in one.
    pub open spec fn arrived<E>(self, descriptor: QueueDescriptor) -> (
        Self,
        Step<ChainAt, Option<QueueDescriptor>, E>,
    ) {
        if !self.leads_to_table(descriptor) {
            let past = self.past(descriptor);
            if past.too_long() {
                (past, Step::Done(Err(QueueError::TooLong)))
            } else {
                (past, Step::Done(Ok(Some(descriptor))))
            }
        } else if self.indirect_queue {
            (self, Step::Done(Err(QueueError::DoubleIndirect)))
        } else {
            let table = ChainAt::Table { address: descriptor.address, length: descriptor.length };
            (self, Step::Wait { at: table, request: self.request_at(table) })
        }
    }

    /// What the reading of a descriptor does on the reply at `at`.
    pub open spec fn next_resume<E>(self, at: ChainAt, reply: Result<Seq<u8>, E>) -> (
        Self,
        Step<ChainAt, Option<QueueDescriptor>, E>,
    ) {
        match reply {
            Err(e) => (self, Step::Done(Err(QueueError::Memory(e)))),
            Ok(_) => match (at, self.raw(at, reply)) {
                (ChainAt::Table { address, length }, _) => {
                    let entered = self.entered(length);
                    (
                        entered,
                        Step::Wait {
                            at: ChainAt::FirstOfTable,
                            request: entered.request_at(ChainAt::FirstOfTable),
                        },
                    )
                },
                (_, Some(descriptor)) => self.arrived(descriptor),
                (_, None) => (self, Step::Done(Ok(None))),
            },
        }
    }

    /// The request whose reply the walk waits for at `at`.
    fn pending(&self, at: ChainAt) -> (request: Request)
        requires
            self.waits_at(at),
        ensures
            request == self.request_at(at),
    {
        match at {
            ChainAt::Entry => {
                let region = if self.indirect_queue {
                    Region::Indirect
                } else {
                    Region::Descriptors
                };
                read_descriptor(region, self.descriptor_index.unwrap())
            },
            ChainAt::Table { address, length } => Request::Subrange {
                region: Region::Indirect,
                addr: address,
                len: length as u64,
            },
            ChainAt::FirstOfTable => read_descriptor(Region::Indirect, 0),
        }
    }

    /// The descriptor that the reply at `at` brings, as the table holds it.
    pub fn decode<E>(&self, at: ChainAt, reply: &Result<Vec<u8>, E>) -> (found: Option<
        QueueDescriptor,
    >)
        requires
            self.waits_at(at),
            memory::answers(self.request_at(at), memory::reply_view(*reply)),
        ensures
            found == self.raw(at, memory::reply_view(*reply)),
    {
        match (at, reply) {
            (ChainAt::Entry, Ok(data)) => {
                let active_indirect_len = if self.indirect_queue {
                    Some(self.queue_size)
                } else {
                    None
                };
                Some(
                    descriptor(
                        self.packed,
                        data,
                        self.descriptor_index.unwrap(),
                        active_indirect_len,
                    ),
                )
            },
            (ChainAt::FirstOfTable, Ok(data)) => Some(
                descriptor(self.packed, data, 0, Some(self.queue_size)),
            ),
            _ => None,
        }
    }

    /// Whether guest memory can have given the reply at `at`.
    pub fn accepts<E>(&self, at: ChainAt, reply: &Result<Vec<u8>, E>) -> (accepts: bool)
        requires
            self.waits_at(at),
        ensures
            accepts == self.answers(at, memory::reply_view(*reply)),
    {
        if !memory::is_answer(&self.pending(at), reply) {
            return false;
        }
        match self.decode(at, reply) {
            None => true,
            Some(_) => self.queue_size > 0,
        }
    }

    /// Takes the step past `descriptor`.
    fn advance<E>(&mut self, descriptor: QueueDescriptor) -> (step: Step<
        ChainAt,
        Option<QueueDescriptor>,
        E,
    >)
        requires
            old(self).queue_size > 0,
        ensures
            *final(self) == old(self).past(descriptor),
            step == (if old(self).past(descriptor).too_long() {
                Step::<ChainAt, Option<QueueDescriptor>, E>::Done(Err(QueueError::TooLong))
            } else {
                Step::<ChainAt, Option<QueueDescriptor>, E>::Done(Ok(Some(descriptor)))
            }),
    {
        // A chain is too long well before the count could run over.
        self.num_read = self.num_read.saturating_add(1);
        self.descriptor_index =
        match descriptor.next {
            Some(next) => Some(next % self.queue_size),
            None => None,
        };
        // Limit the descriptor chain length to avoid running out of memory.
        // This may be due to a cycle in the descriptor chain.
        if self.descriptor_index.is_some() && (self.num_read == self.max_desc_chain
            || self.num_read >= MAX_DESC_CHAIN) {
            return Step::Done(Err(QueueError::TooLong));
        }
        Step::Done(Ok(Some(descriptor)))
    }

    /// Goes on from a descriptor that was read.
    fn arrive<E>(&mut self, found: QueueDescriptor) -> (step: Step<
        ChainAt,
        Option<QueueDescriptor>,
        E,
    >)
        requires
            old(self).queue_size > 0,
        ensures
            (*final(self), step) == old(self).arrived::<E>(found),
    {
        if !self.indirect_support || !found.flags.indirect() {
            return self.advance(found);
        }
        if self.indirect_queue {
            return Step::Done(Err(QueueError::DoubleIndirect));
        }
        let table = ChainAt::Table { address: found.address, length: found.length };
        Step::Wait { at: table, request: self.pending(table) }
    }

    /// Reads the next descriptor of the chain; there is none at its end.
    ///
    /// A descriptor of the queue that stands for an indirect table is not
    /// handed out: the walk goes on with the descriptors of the table. A
    /// descriptor of a table that stands for another one is refused.
    pub fn next_descriptor<E>(&mut self, event: Event<ChainAt, E>) -> (step: Step<
        ChainAt,
        Option<QueueDescriptor>,
        E,
    >)
        requires
            old(self).wf(),
            event matches Event::Reply { at, reply } ==> {
                &&& old(self).waits_at(at)
                &&& old(self).answers(at, memory::reply_view(reply))
            },
        ensures
            match event {
                Event::Start => *final(self) == *old(self) && step == old(self).next_start::<E>(),
                Event::Reply { at, reply } => (*final(self), step) == old(self).next_resume(
                    at,
                    memory::reply_view(reply),
                ),
            },
            final(self).wf(),
            step matches Step::Wait { at, request } ==> final(self).waits_at(at) && request
                == final(self).request_at(at),
    {
        match event {
            Event::Start => if self.descriptor_index.is_none() {
                Step::Done(Ok(None))
            } else {
                Step::Wait { at: ChainAt::Entry, request: self.pending(ChainAt::Entry) }
            },
            Event::Reply { at, reply } => {
                let found = self.decode(at, &reply);
                if let Err(e) = reply {
                    return Step::Done(Err(QueueError::Memory(e)));
                }
                match at {
                    ChainAt::Table { address: _, length } => {
                        self.indirect_queue = true;
                        self.descriptor_index = Some(0);
                        let counted: u32 = if length < 0xffff {
                            length
                        } else {
                            0xffff
                        };
                        self.queue_size = (counted / 16) as u16;
                        self.max_desc_chain = limit_chain(self.queue_size);
                        Step::Wait {
                            at: ChainAt::FirstOfTable,
                            request: self.pending(ChainAt::FirstOfTable),
                        }
                    },
                    _ => match found {
                        Some(found) => self.arrive(found),
                        None => Step::Done(Ok(None)),
                    },
                }
            },
        }
    }
}

/// A walk along a descriptor chain that hands out its buffers.
#[derive(Debug, Clone, Copy, PartialEq, Eq)]
pub struct DescriptorReader {
    pub chain: DescriptorChain,
}

/// The same step with the buffer of the descriptor in place of the descriptor.
pub open spec fn payload_step<E>(step: Step<ChainAt, Option<QueueDescriptor>, E>) -> Step<
    ChainAt,
    Option<VirtioQueuePayload>,
    E,
> {
    match step {
        Step::Wait { at, request } => Step::Wait { at, request },
        Step::Done(Ok(Some(descriptor))) => Step::Done(Ok(Some(payload_of(descriptor)))),
        Step::Done(Ok(None)) => Step::Done(Ok(None)),
        Step::Done(Err(e)) => Step::Done(Err(e)),
    }
}

impl DescriptorReader {
    /// Reads the next buffer of the chain; there is none at its end.
    pub fn next<E>(&mut self, event: Event<ChainAt, E>) -> (step: Step<
        ChainAt,
        Option<VirtioQueuePayload>,
        E,
    >)
        requires
            old(self).chain.wf(),
            event matches Event::Reply { at, reply } ==> {
                &&& old(self).chain.waits_at(at)
                &&& old(self).chain.answers(at, memory::reply_view(reply))
            },
        ensures
            match event {
                Event::Start => *final(self) == *old(self) && step == payload_step(
                    old(self).chain.next_start::<E>(),
                ),
                Event::Reply { at, reply } => {
                    let next = old(self).chain.next_resume(at, memory::reply_view(reply));
                    final(self).chain == next.0 && step == payload_step(next.1)
                },
            },
            final(self).chain.wf(),
            step matches Step::Wait { at, request } ==> final(self).chain.waits_at(at) && request
                == final(self).chain.request_at(at),
    {
        match self.chain.next_descriptor(event) {
            Step::Wait { at, request } => Step::Wait { at, request },
            Step::Done(Ok(Some(descriptor))) => Step::Done(
                Ok(
                    Some(
                        VirtioQueuePayload {
                            writeable: descriptor.flags.write(),
                            address: descriptor.address,
                            length: descriptor.length,
                        },
                    ),
                ),
            ),
            Step::Done(Ok(None)) => Step::Done(Ok(None)),
            Step::Done(Err(e)) => Step::Done(Err(e)),
        }
    }
}

} // verus!
