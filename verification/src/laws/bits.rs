//! Laws on the bits and bytes that a queue shares with its driver, each stated
//! as arithmetic on numbers and bytes.

use crate::layout::{
    AvailableFlags, DescriptorFlags, EventSuppressionFlags, PackedDescriptor,
    PackedEventSuppresion, SplitDescriptor, UsedElement, UsedFlags, VirtioDeviceFeatures,
};
use crate::le;
use crate::memory::Plain;
use crate::packed;
use vstd::prelude::*;

verus! {

/// Whether a number has the bit of the given weight, a power of 2.
pub open spec fn bit_of(v: int, weight: int) -> bool {
    v / weight % 2 == 1
}

/// The number in two bytes, the less significant one first.
pub open spec fn word16(b: Seq<u8>, at: int) -> int {
    b[at] + 0x100 * b[at + 1]
}

/// The number in four bytes, the least significant one first.
pub open spec fn word32(b: Seq<u8>, at: int) -> int {
    b[at] + 0x100 * b[at + 1] + 0x1_0000 * b[at + 2] + 0x100_0000 * b[at + 3]
}

/// The number in eight bytes, the least significant one first.
pub open spec fn word64(b: Seq<u8>, at: int) -> int {
    word32(b, at) + 0x1_0000_0000 * word32(b, at + 4)
}

/// Little-endian numbers are read from their bytes, and their bytes hold them.
pub proof fn law_numbers(b: Seq<u8>, v16: u16, v32: u32, v64: u64)
    ensures
        b.len() == 2 ==> le::le_u16(b) == word16(b, 0),
        b.len() == 4 ==> le::le_u32(b) == word32(b, 0),
        b.len() == 8 ==> le::le_u64(b) == word64(b, 0),
        le::u16_bytes(v16).len() == 2 && word16(le::u16_bytes(v16), 0) == v16,
        le::u32_bytes(v32).len() == 4 && word32(le::u32_bytes(v32), 0) == v32,
        le::u64_bytes(v64).len() == 8 && word64(le::u64_bytes(v64), 0) == v64,
{
    le::lemma_u16_round_trip(v16);
    le::lemma_u32_round_trip(v32);
    le::lemma_u64_round_trip(v64);
    let bytes = le::u64_bytes(v64);
    assert(bytes.subrange(0, 4) =~= le::u32_bytes((v64 % 0x1_0000_0000) as u32));
    assert(bytes.subrange(4, 8) =~= le::u32_bytes((v64 / 0x1_0000_0000) as u32));
    assert(word32(bytes, 0) == word32(bytes.subrange(0, 4), 0));
    assert(word32(bytes, 4) == word32(bytes.subrange(4, 8), 0));
    if b.len() == 8 {
        assert(word32(b, 0) == word32(b.subrange(0, 4), 0));
        assert(word32(b, 4) == word32(b.subrange(4, 8), 0));
    }
}

/// Feature 28 allows indirect tables, feature 29 event indices, and feature 34
/// selects packed queues, whatever the other features are.
pub proof fn law_feature_bits(features: VirtioDeviceFeatures)
    ensures
        features.bank0().ring_indirect_desc() <==> bit_of(
            features.bank0.bits as int,
            0x1000_0000,
        ),
        features.bank0().ring_event_idx() <==> bit_of(features.bank0.bits as int, 0x2000_0000),
        features.bank1().ring_packed() <==> bit_of(features.bank1.bits as int, 4),
{
    let b0 = features.bank0.bits;
    let b1 = features.bank1.bits;
    assert((b0 & 0x1000_0000 != 0) == (b0 / 0x1000_0000u32 % 2 == 1)) by (bit_vector);
    assert((b0 & 0x2000_0000 != 0) == (b0 / 0x2000_0000u32 % 2 == 1)) by (bit_vector);
    assert((b1 & 0x4 != 0) == (b1 / 4u32 % 2 == 1)) by (bit_vector);
}

/// Each flag of a descriptor is one bit of its flags, whatever the others are.
pub proof fn law_descriptor_flag_bits(flags: DescriptorFlags)
    ensures
        flags.next() <==> bit_of(flags.bits as int, 1),
        flags.write() <==> bit_of(flags.bits as int, 2),
        flags.indirect() <==> bit_of(flags.bits as int, 4),
        flags.available() <==> bit_of(flags.bits as int, 0x80),
        flags.used() <==> bit_of(flags.bits as int, 0x8000),
{
    let b = flags.bits;
    assert((b & 0x0001 != 0) == (b / 1u16 % 2 == 1)) by (bit_vector);
    assert((b & 0x0002 != 0) == (b / 2u16 % 2 == 1)) by (bit_vector);
    assert((b & 0x0004 != 0) == (b / 4u16 % 2 == 1)) by (bit_vector);
    assert((b & 0x0080 != 0) == (b / 0x80u16 % 2 == 1)) by (bit_vector);
    assert((b & 0x8000 != 0) == (b / 0x8000u16 % 2 == 1)) by (bit_vector);
}

/// The weight of a bit, where it is set.
pub open spec fn weight_if(set: bool, weight: int) -> int {
    if set {
        weight
    } else {
        0
    }
}

/// Setting or clearing the available flag, or the used flag, changes that bit
/// and no other.
pub proof fn law_set_lap_bits(flags: DescriptorFlags, set: bool)
    ensures
        flags.with_available(set).bits == flags.bits - weight_if(
            bit_of(flags.bits as int, 0x80),
            0x80,
        ) + weight_if(set, 0x80),
        flags.with_used(set).bits == flags.bits - weight_if(
            bit_of(flags.bits as int, 0x8000),
            0x8000,
        ) + weight_if(set, 0x8000),
{
    let b = flags.bits;
    assert((b | 0x0080) == b - (b / 0x80u16 % 2) * 0x80 + 0x80) by (bit_vector);
    assert((b & !0x0080u16) == b - (b / 0x80u16 % 2) * 0x80) by (bit_vector);
    assert((b | 0x8000) == b - (b / 0x8000u16 % 2) * 0x8000 + 0x8000) by (bit_vector);
    assert((b & !0x8000u16) == b - (b / 0x8000u16 % 2) * 0x8000) by (bit_vector);
}

/// Bit 0 of the flags of the available ring says that the driver does not want
/// to be told, and bit 0 of those of the used ring that the device does not.
pub proof fn law_ring_flag_bits(flags: AvailableFlags, set: bool)
    ensures
        flags.no_interrupt() <==> bit_of(flags.bits as int, 1),
        UsedFlags::spec_no_notify(set).bits == weight_if(set, 1),
{
    let b = flags.bits;
    assert((b & 0x0001 != 0) == (b / 1u16 % 2 == 1)) by (bit_vector);
}

/// A descriptor is ready exactly where its available bit is the wrap counter and
/// its used bit is not, whatever its other bits are.
pub proof fn law_ready_bits(flags: DescriptorFlags, wrapped_bit: bool)
    ensures
        packed::ready(flags, wrapped_bit) <==> bit_of(flags.bits as int, 0x80) == wrapped_bit
            && bit_of(flags.bits as int, 0x8000) != wrapped_bit,
{
    law_descriptor_flag_bits(flags);
}

/// A descriptor that the driver publishes in the lap of the wrap counter, with
/// any further bits, is ready in that lap and not in the other.
pub proof fn law_published_is_ready(others: u16, wrapped_bit: bool)
    requires
        !bit_of(others as int, 0x80),
        !bit_of(others as int, 0x8000),
    ensures
        ({
            let bits = others + if wrapped_bit {
                0x80int
            } else {
                0x8000
            };
            &&& packed::ready(DescriptorFlags { bits: bits as u16 }, wrapped_bit)
            &&& !packed::ready(DescriptorFlags { bits: bits as u16 }, !wrapped_bit)
        }),
{
    let bits = (others + if wrapped_bit {
        0x80int
    } else {
        0x8000
    }) as u16;
    assert(others / 0x80u16 % 2 == 0 && others / 0x8000u16 % 2 == 0 ==> others <= 0x7f7f
        && (others + 0x80) / 0x80 % 2 == 1 && (others + 0x80) / 0x8000 % 2 == 0 && (others
        + 0x8000) / 0x80 % 2 == 0 && (others + 0x8000) / 0x8000 % 2 == 1) by (bit_vector);
    law_ready_bits(DescriptorFlags { bits }, wrapped_bit);
    law_ready_bits(DescriptorFlags { bits }, !wrapped_bit);
}

/// Where the sixteen bytes of a descriptor hold its fields: a split descriptor
/// has its flags before the index of the next one, a packed descriptor its
/// identifier before its flags.
pub proof fn law_descriptor_fields(b: Seq<u8>)
    requires
        b.len() == 16,
    ensures
        SplitDescriptor::of_bytes(b).address == word64(b, 0),
        SplitDescriptor::of_bytes(b).length == word32(b, 8),
        SplitDescriptor::of_bytes(b).flags.bits == word16(b, 12),
        SplitDescriptor::of_bytes(b).next == word16(b, 14),
        PackedDescriptor::of_bytes(b).address == word64(b, 0),
        PackedDescriptor::of_bytes(b).length == word32(b, 8),
        PackedDescriptor::of_bytes(b).buffer_id == word16(b, 12),
        PackedDescriptor::of_bytes(b).flags.bits == word16(b, 14),
{
    law_numbers(b.subrange(0, 8), 0, 0, 0);
    law_numbers(b.subrange(8, 12), 0, 0, 0);
    law_numbers(b.subrange(12, 14), 0, 0, 0);
    law_numbers(b.subrange(14, 16), 0, 0, 0);
    assert(word64(b.subrange(0, 8), 0) == word64(b, 0));
}

/// The bytes of a value that is written to guest memory hold its fields.
pub proof fn law_written_bytes(v16: u16, v32: u32, element: UsedElement, d: PackedDescriptor)
    ensures
        ({
            let b = Plain::U16(v16).spec_bytes();
            b.len() == 2 && word16(b, 0) == v16
        }),
        ({
            let b = Plain::U32(v32).spec_bytes();
            b.len() == 4 && word32(b, 0) == v32
        }),
        ({
            let b = Plain::UsedElement(element).spec_bytes();
            b.len() == 8 && word32(b, 0) == element.id && word32(b, 4) == element.len
        }),
        ({
            let b = Plain::PackedDescriptor(d).spec_bytes();
            &&& b.len() == 16
            &&& word64(b, 0) == d.address
            &&& word32(b, 8) == d.length
            &&& word16(b, 12) == d.buffer_id
            &&& word16(b, 14) == d.flags.bits
        }),
{
    law_numbers(Seq::empty(), v16, v32, d.address);
    law_numbers(Seq::empty(), d.buffer_id, element.id, 0);
    law_numbers(Seq::empty(), d.flags.bits, element.len, 0);
    law_numbers(Seq::empty(), 0, d.length, 0);
    let e = Plain::UsedElement(element).spec_bytes();
    assert(e.subrange(0, 4) =~= le::u32_bytes(element.id));
    assert(e.subrange(4, 8) =~= le::u32_bytes(element.len));
    assert(word32(e, 0) == word32(e.subrange(0, 4), 0));
    assert(word32(e, 4) == word32(e.subrange(4, 8), 0));
    let b = Plain::PackedDescriptor(d).spec_bytes();
    assert(b.subrange(0, 8) =~= le::u64_bytes(d.address));
    assert(b.subrange(8, 12) =~= le::u32_bytes(d.length));
    assert(b.subrange(12, 14) =~= le::u16_bytes(d.buffer_id));
    assert(b.subrange(14, 16) =~= le::u16_bytes(d.flags.bits));
    assert(word64(b, 0) == word64(b.subrange(0, 8), 0));
    assert(word32(b, 8) == word32(b.subrange(8, 12), 0));
    assert(word16(b, 12) == word16(b.subrange(12, 14), 0));
    assert(word16(b, 14) == word16(b.subrange(14, 16), 0));
}

/// The number by which an event suppression structure holds its flags.
pub open spec fn flags_number(flags: EventSuppressionFlags) -> int {
    match flags {
        EventSuppressionFlags::Enabled => 0,
        EventSuppressionFlags::Disabled => 1,
        EventSuppressionFlags::DescriptorIndex => 2,
        EventSuppressionFlags::Reserved => 3,
    }
}

/// An event suppression structure holds a ring position in bits 0 to 14, its
/// wrap counter in bit 15, and the number of its flags in bits 16 and 17.
/// Setting the flags changes those two bits and no other.
pub proof fn law_event_suppression_bits(
    event: PackedEventSuppresion,
    flags: EventSuppressionFlags,
)
    ensures
        event.offset() == event.bits as int % 0x8000,
        event.wrap() <==> bit_of(event.bits as int, 0x8000),
        flags_number(event.flags()) == event.bits as int / 0x1_0000 % 4,
        event.with_flags(flags).bits as int == event.bits - event.bits as int / 0x1_0000 % 4
            * 0x1_0000 + flags_number(flags) * 0x1_0000,
{
}

} // verus!
