//! Laws on the structures that a queue shares with its driver.

use crate::layout::{
    DescriptorFlags, EventSuppressionFlags, PackedDescriptor, PackedEventSuppresion,
    SplitDescriptor, UsedElement, DESCRIPTOR_SIZE, USED_ELEMENT_SIZE,
};
use crate::le;
use crate::packed;
use vstd::prelude::*;

verus! {

/// Reading the bytes of a split descriptor gives the descriptor back.
pub proof fn law_split_descriptor_round_trip(descriptor: SplitDescriptor)
    ensures
        descriptor.bytes().len() == DESCRIPTOR_SIZE,
        SplitDescriptor::of_bytes(descriptor.bytes()) == descriptor,
{
    le::lemma_u64_round_trip(descriptor.address);
    le::lemma_u32_round_trip(descriptor.length);
    le::lemma_u16_round_trip(descriptor.flags.bits);
    le::lemma_u16_round_trip(descriptor.next);
    let bytes = descriptor.bytes();
    assert(bytes.subrange(0, 8) =~= le::u64_bytes(descriptor.address));
    assert(bytes.subrange(8, 12) =~= le::u32_bytes(descriptor.length));
    assert(bytes.subrange(12, 14) =~= le::u16_bytes(descriptor.flags.bits));
    assert(bytes.subrange(14, 16) =~= le::u16_bytes(descriptor.next));
}

/// Reading the bytes of a packed descriptor gives the descriptor back. They are
/// as many as those of a split descriptor.
pub proof fn law_packed_descriptor_round_trip(descriptor: PackedDescriptor)
    ensures
        descriptor.bytes().len() == DESCRIPTOR_SIZE,
        PackedDescriptor::of_bytes(descriptor.bytes()) == descriptor,
{
    le::lemma_u64_round_trip(descriptor.address);
    le::lemma_u32_round_trip(descriptor.length);
    le::lemma_u16_round_trip(descriptor.buffer_id);
    le::lemma_u16_round_trip(descriptor.flags.bits);
    let bytes = descriptor.bytes();
    assert(bytes.subrange(0, 8) =~= le::u64_bytes(descriptor.address));
    assert(bytes.subrange(8, 12) =~= le::u32_bytes(descriptor.length));
    assert(bytes.subrange(12, 14) =~= le::u16_bytes(descriptor.buffer_id));
    assert(bytes.subrange(14, 16) =~= le::u16_bytes(descriptor.flags.bits));
}

/// Reading the bytes of an element of the used ring gives the element back.
pub proof fn law_used_element_round_trip(element: UsedElement)
    ensures
        element.bytes().len() == USED_ELEMENT_SIZE,
        UsedElement::of_bytes(element.bytes()) == element,
{
    le::lemma_u32_round_trip(element.id);
    le::lemma_u32_round_trip(element.len);
    assert(element.bytes().subrange(0, 4) =~= le::u32_bytes(element.id));
    assert(element.bytes().subrange(4, 8) =~= le::u32_bytes(element.len));
}

/// The flags of an event suppression structure are those that were set last,
/// and setting them leaves its position alone.
pub proof fn law_event_suppression_flags(
    event: PackedEventSuppresion,
    flags: EventSuppressionFlags,
)
    ensures
        event.with_flags(flags).flags() == flags,
        event.with_flags(flags).offset() == event.offset(),
        event.with_flags(flags).wrap() == event.wrap(),
{
}

/// The flags that a device sets on a used descriptor say that it was both made
/// available and used in the lap of the wrap counter. So the descriptor is not
/// ready in that lap, nor in the next one, until its driver makes it available
/// anew.
pub proof fn law_used_is_not_ready(wrapped_bit: bool)
    ensures
        ({
            let flags = DescriptorFlags { bits: 0 }.with_available(wrapped_bit).with_used(
                wrapped_bit,
            );
            &&& flags.available() == wrapped_bit
            &&& flags.used() == wrapped_bit
            &&& !flags.next() && !flags.write() && !flags.indirect()
            &&& !packed::ready(flags, wrapped_bit)
            &&& !packed::ready(flags, !wrapped_bit)
        }),
{
    assert((0u16 | 0x0080) | 0x8000 == 0x8080u16) by (bit_vector);
    assert((0u16 & !0x0080u16) & !0x8000u16 == 0u16) by (bit_vector);
    assert(0x8080u16 & 0x0001 == 0 && 0x8080u16 & 0x0002 == 0 && 0x8080u16 & 0x0004 == 0
        && 0x8080u16 & 0x0080 != 0 && 0x8080u16 & 0x8000 != 0) by (bit_vector);
    assert(0u16 & 0x0001 == 0 && 0u16 & 0x0002 == 0 && 0u16 & 0x0004 == 0 && 0u16 & 0x0080 == 0
        && 0u16 & 0x8000 == 0) by (bit_vector);
}

} // verus!
