//! The single steps of a walk along a descriptor chain, stated on the bytes of
//! its descriptors.

use crate::descriptor;
use crate::descriptor::{ChainAt, DescriptorChain, QueueDescriptor, VirtioQueuePayload};
use crate::get_work::QueueCoreGetWork;
use crate::laws::bits;
use crate::laws::bits::{bit_of, word16, word32, word64};
use crate::layout::{DescriptorFlags, PackedDescriptor, SplitDescriptor};
use crate::memory;
use crate::memory::{QueueError, Region, Request, Step};
use vstd::prelude::*;

verus! {

/// The flags of a descriptor: the last two of its sixteen bytes where it is
/// packed, and the two before them where it is not.
pub open spec fn flags_in(packed: bool, data: Seq<u8>) -> int {
    if packed {
        word16(data, 14)
    } else {
        word16(data, 12)
    }
}

/// The index that a descriptor at `index` names: that of the next place where it
/// is packed, and the number in its last two bytes where it is not.
pub open spec fn named_by(packed: bool, data: Seq<u8>, index: int) -> int {
    if packed {
        (index + 1) % 0x1_0000
    } else {
        word16(data, 14)
    }
}

/// Whether the chain goes on after a descriptor: where bit 0 of its flags is
/// set, and, in an indirect table of packed descriptors, as long as the table
/// has descriptors.
pub open spec fn goes_on(packed: bool, data: Seq<u8>, index: int, table: Option<u16>) -> bool {
    bit_of(flags_in(packed, data), 1) || (packed && table is Some && (index + 1) % 0x1_0000
        < table->0)
}

/// The number of descriptors of the indirect table that a walk is in.
pub open spec fn table_of(chain: DescriptorChain) -> Option<u16> {
    if chain.indirect_queue {
        Some(chain.queue_size)
    } else {
        None
    }
}

/// The descriptor in sixteen bytes: an address of eight bytes, a length of four,
/// and then the flags and the next index, or the identifier and the flags.
pub proof fn law_decodes(packed: bool, data: Seq<u8>, index: u16, table: Option<u16>)
    requires
        data.len() == 16,
    ensures
        ({
            let found = descriptor::descriptor_of(packed, data, index, table);
            &&& found.address == word64(data, 0)
            &&& found.length == word32(data, 8)
            &&& found.flags.bits == flags_in(packed, data)
            &&& found.buffer_id == (if packed {
                Some(word16(data, 12) as u16)
            } else {
                None
            })
            &&& found.next == (if goes_on(packed, data, index as int, table) {
                Some(named_by(packed, data, index as int) as u16)
            } else {
                None
            })
        }),
{
    bits::law_descriptor_fields(data);
    bits::law_descriptor_flag_bits(PackedDescriptor::of_bytes(data).flags);
    bits::law_descriptor_flag_bits(SplitDescriptor::of_bytes(data).flags);
}

/// A walk reads the sixteen bytes of the descriptor at its index, in the table
/// that it is in, and there is no descriptor where it has no index.
pub proof fn law_walk_begins<E>(chain: DescriptorChain, region: Region, index: u16)
    ensures
        descriptor::entry_request(region, index) == (Request::Read {
            region,
            offset: (16 * index) as u64,
            len: 16,
        }),
        chain.next_start::<E>() == (match chain.descriptor_index {
            None => Step::<ChainAt, Option<QueueDescriptor>, E>::Done(Ok(None)),
            Some(i) => Step::<ChainAt, Option<QueueDescriptor>, E>::Wait {
                at: ChainAt::Entry,
                request: Request::Read {
                    region: if chain.indirect_queue {
                        Region::Indirect
                    } else {
                        Region::Descriptors
                    },
                    offset: (16 * i) as u64,
                    len: 16,
                },
            },
        }),
{
}

/// What a walk does with a descriptor. Where bit 2 of its flags is set, and
/// indirect tables are in use, the descriptor is refused in an indirect table,
/// and else leads into the table of the address and the length that it names.
/// Any other descriptor counts, and is handed out, unless the chain goes on
/// after it although as many as the table allows, or 128, have been counted. The
/// walk then stands at the index that follows, within the table, or at the end.
pub proof fn law_walk_arrives<E>(chain: DescriptorChain, at: ChainAt, data: Seq<u8>)
    requires
        chain.queue_size > 0,
        chain.waits_at(at),
        at !is Table,
        data.len() == 16,
    ensures
        ({
            let i = chain.descriptor_index->0 as int;
            let flags = flags_in(chain.packed, data);
            let more = goes_on(chain.packed, data, i, table_of(chain));
            let next = named_by(chain.packed, data, i);
            let read = if chain.num_read < 0xffff {
                chain.num_read + 1
            } else {
                0xffff
            };
            let past = DescriptorChain {
                packed: chain.packed,
                queue_size: chain.queue_size,
                indirect_support: chain.indirect_support,
                indirect_queue: chain.indirect_queue,
                descriptor_index: if more {
                    Some((next % (chain.queue_size as int)) as u16)
                } else {
                    None
                },
                num_read: read as u16,
                max_desc_chain: chain.max_desc_chain,
            };
            let (after, step) = chain.next_resume::<E>(at, Ok(data));
            if chain.indirect_support && bit_of(flags, 4) {
                &&& after == chain
                &&& step == (if chain.indirect_queue {
                    Step::<ChainAt, Option<QueueDescriptor>, E>::Done(
                        Err(QueueError::DoubleIndirect),
                    )
                } else {
                    Step::<ChainAt, Option<QueueDescriptor>, E>::Wait {
                        at: ChainAt::Table {
                            address: word64(data, 0) as u64,
                            length: word32(data, 8) as u32,
                        },
                        request: Request::Subrange {
                            region: Region::Indirect,
                            addr: word64(data, 0) as u64,
                            len: word32(data, 8) as u64,
                        },
                    }
                })
            } else {
                &&& after == past
                &&& step == (if more && (read == chain.max_desc_chain || read >= 128) {
                    Step::<ChainAt, Option<QueueDescriptor>, E>::Done(Err(QueueError::TooLong))
                } else {
                    Step::<ChainAt, Option<QueueDescriptor>, E>::Done(
                        Ok(
                            Some(
                                QueueDescriptor {
                                    address: word64(data, 0) as u64,
                                    length: word32(data, 8) as u32,
                                    flags: DescriptorFlags { bits: flags as u16 },
                                    buffer_id: if chain.packed {
                                        Some(word16(data, 12) as u16)
                                    } else {
                                        None
                                    },
                                    next: if more {
                                        Some(next as u16)
                                    } else {
                                        None
                                    },
                                },
                            ),
                        ),
                    )
                })
            }
        }),
{
    let i = chain.descriptor_index->0;
    law_decodes(chain.packed, data, i, table_of(chain));
    let found = descriptor::descriptor_of(chain.packed, data, i, table_of(chain));
    assert(chain.raw::<E>(at, Ok(data)) == Some(found));
    bits::law_descriptor_flag_bits(found.flags);
}

/// A walk enters an indirect table at its first descriptor. The table has one
/// descriptor for each sixteen of its bytes, of which at most 65535 count, and
/// allows a chain of as many, up to 128. What has been counted stays counted.
pub proof fn law_walk_enters<E>(
    chain: DescriptorChain,
    address: u64,
    length: u32,
    granted: Seq<u8>,
)
    ensures
        ({
            let bytes = if length < 0xffff {
                length as int
            } else {
                0xffff
            };
            let size = bytes / 16;
            chain.next_resume::<E>(ChainAt::Table { address, length }, Ok(granted)) == (
                DescriptorChain {
                    packed: chain.packed,
                    queue_size: size as u16,
                    indirect_support: chain.indirect_support,
                    indirect_queue: true,
                    descriptor_index: Some(0),
                    num_read: chain.num_read,
                    max_desc_chain: (if size < 128 {
                        size
                    } else {
                        128
                    }) as u16,
                },
                Step::<ChainAt, Option<QueueDescriptor>, E>::Wait {
                    at: ChainAt::FirstOfTable,
                    request: Request::Read { region: Region::Indirect, offset: 0, len: 16 },
                },
            )
        }),
{
}

/// A failed access ends the reading of a descriptor with the error of guest
/// memory, wherever it waits, and the walk stays where it was.
pub proof fn law_walk_fails<E>(chain: DescriptorChain, at: ChainAt, e: E)
    ensures
        chain.next_resume(at, Err(e)) == (
            chain,
            Step::<ChainAt, Option<QueueDescriptor>, E>::Done(Err(QueueError::Memory(e))),
        ),
{
}

/// A walk takes a reply to the read of a descriptor that has sixteen bytes, and
/// one to the taking of a table that ends in the address space; a failed access
/// it takes always.
pub proof fn law_walk_accepts<E>(chain: DescriptorChain, at: ChainAt, data: Seq<u8>, e: E)
    requires
        chain.queue_size > 0,
    ensures
        chain.answers::<E>(at, Ok(data)) <==> (match at {
            ChainAt::Table { address, length } => address + length < 0x1_0000_0000_0000_0000,
            _ => data.len() == 16,
        }),
        chain.answers::<E>(at, Err(e)),
{
}

/// A reader hands out the buffer of each descriptor: its address and its length,
/// whatever its flags are, to be written where bit 1 of its flags is set.
pub proof fn law_reads_buffer<E>(
    found: QueueDescriptor,
    at: ChainAt,
    request: Request,
    e: QueueError<E>,
)
    ensures
        descriptor::payload_step::<E>(Step::Done(Ok(Some(found)))) == Step::<
            ChainAt,
            Option<VirtioQueuePayload>,
            E,
        >::Done(
            Ok(
                Some(
                    VirtioQueuePayload {
                        writeable: bit_of(found.flags.bits as int, 2),
                        address: found.address,
                        length: found.length,
                    },
                ),
            ),
        ),
        descriptor::payload_step::<E>(Step::Done(Ok(None))) == Step::<
            ChainAt,
            Option<VirtioQueuePayload>,
            E,
        >::Done(Ok(None)),
        descriptor::payload_step::<E>(Step::Done(Err(e))) == Step::<
            ChainAt,
            Option<VirtioQueuePayload>,
            E,
        >::Done(Err(e)),
        descriptor::payload_step::<E>((Step::Wait { at, request })) == (Step::<
            ChainAt,
            Option<VirtioQueuePayload>,
            E,
        >::Wait { at, request }),
{
    bits::law_descriptor_flag_bits(found.flags);
}

/// A reader gives back, of the sixteen bytes of a descriptor that leads into no
/// table, the buffer in them, where the chain ends with it or has not had as many
/// descriptors as it may have.
pub proof fn law_reads_buffer_of_bytes<E>(chain: DescriptorChain, at: ChainAt, data: Seq<u8>)
    requires
        chain.queue_size > 0,
        chain.waits_at(at),
        at !is Table,
        data.len() == 16,
        goes_on(chain.packed, data, chain.descriptor_index->0 as int, table_of(chain)) ==> {
            &&& chain.num_read + 1 != chain.max_desc_chain
            &&& chain.num_read + 1 < 128
        },
        !chain.indirect_support || !bit_of(flags_in(chain.packed, data), 4),
    ensures
        descriptor::payload_step(chain.next_resume::<E>(at, Ok(data)).1) == Step::<
            ChainAt,
            Option<VirtioQueuePayload>,
            E,
        >::Done(
            Ok(
                Some(
                    VirtioQueuePayload {
                        writeable: bit_of(flags_in(chain.packed, data), 2),
                        address: word64(data, 0) as u64,
                        length: word32(data, 8) as u32,
                    },
                ),
            ),
        ),
{
    law_walk_arrives::<E>(chain, at, data);
    let flags = DescriptorFlags { bits: flags_in(chain.packed, data) as u16 };
    bits::law_descriptor_flag_bits(flags);
}

/// A walk along a chain of a queue begins at the index of its first descriptor,
/// in the table of the queue, with nothing counted, and may count as many
/// descriptors as the queue has, up to 128. A reader of the chain enters indirect
/// tables exactly where feature 28 is in use.
pub proof fn law_walk_of_queue(queue: QueueCoreGetWork, indirect_support: bool, index: u16)
    ensures
        ({
            let chain = DescriptorChain {
                packed: queue.inner is Packed,
                queue_size: queue.queue_size,
                indirect_support,
                indirect_queue: false,
                descriptor_index: Some(index),
                num_read: 0,
                max_desc_chain: if queue.queue_size < 128 {
                    queue.queue_size
                } else {
                    128
                },
            };
            &&& queue.chain(indirect_support, index) == chain
            &&& queue.spec_reader(index).chain == (DescriptorChain {
                indirect_support: bit_of(queue.features.bank0.bits as int, 0x1000_0000),
                ..chain
            })
        }),
{
    bits::law_feature_bits(queue.features);
}

/// What guest memory can reply: to a read, as many bytes as were asked for; to
/// the taking of a range, a grant only where the range ends in the address
/// space; to a write, anything; and to a fence, no error.
pub proof fn law_replies<E>(
    region: Region,
    at: u64,
    len: u64,
    value: memory::Plain,
    fence: memory::Fence,
    data: Seq<u8>,
    e: E,
)
    ensures
        memory::answers::<E>(Request::Read { region, offset: at, len }, Ok(data)) <==> data.len()
            == len,
        memory::answers(Request::Read { region, offset: at, len }, Err(e)),
        memory::answers::<E>(Request::Subrange { region, addr: at, len }, Ok(data)) <==> at + len
            < 0x1_0000_0000_0000_0000,
        memory::answers(Request::Subrange { region, addr: at, len }, Err(e)),
        memory::answers::<E>(Request::Write { region, offset: at, value }, Ok(data)),
        memory::answers(Request::Write { region, offset: at, value }, Err(e)),
        memory::answers::<E>(Request::Fence(fence), Ok(data)),
        !memory::answers(Request::Fence(fence), Err(e)),
{
}

} // verus!
