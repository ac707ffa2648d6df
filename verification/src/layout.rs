//! The structures that a virtio queue shares with its driver, and the feature
//! bits that select among them.

use crate::le;
use vstd::prelude::*;

verus! {

/// The size of a descriptor, split or packed.
pub const DESCRIPTOR_SIZE: u64 = 16;

/// Where the available ring holds its flags.
pub const AVAIL_OFFSET_FLAGS: u64 = 0;

/// Where the available ring holds the driver's index.
pub const AVAIL_OFFSET_IDX: u64 = 2;

/// Where the elements of the available ring begin.
pub const AVAIL_OFFSET_RING: u64 = 4;

/// The size of an element of the available ring.
pub const AVAIL_ELEMENT_SIZE: u64 = 2;

/// Where the used ring holds its flags.
pub const USED_OFFSET_FLAGS: u64 = 0;

/// Where the used ring holds the device's index.
pub const USED_OFFSET_IDX: u64 = 2;

/// Where the elements of the used ring begin.
pub const USED_OFFSET_RING: u64 = 4;

/// The size of an element of the used ring.
pub const USED_ELEMENT_SIZE: u64 = 8;

/// The size of the event index that follows either ring.
pub const EVENT_INDEX_SIZE: u64 = 2;

/// The size of an event suppression structure of a packed queue.
pub const EVENT_SUPPRESSION_SIZE: u64 = 4;

/// The features that the driver has accepted, in banks of 32.
#[derive(Debug, Clone, Copy, PartialEq, Eq)]
pub struct VirtioDeviceFeatures {
    /// Features 0 to 31.
    pub bank0: VirtioDeviceFeaturesBank0,
    /// Features 32 to 63.
    pub bank1: VirtioDeviceFeaturesBank1,
}

/// Features 0 to 31.
#[derive(Debug, Clone, Copy, PartialEq, Eq)]
pub struct VirtioDeviceFeaturesBank0 {
    pub bits: u32,
}

/// Features 32 to 63.
#[derive(Debug, Clone, Copy, PartialEq, Eq)]
pub struct VirtioDeviceFeaturesBank1 {
    pub bits: u32,
}

impl VirtioDeviceFeatures {
    /// The features with the given bits.
    pub fn new(bank0: u32, bank1: u32) -> (features: Self)
        ensures
            features.bank0.bits == bank0,
            features.bank1.bits == bank1,
    {
        VirtioDeviceFeatures {
            bank0: VirtioDeviceFeaturesBank0 { bits: bank0 },
            bank1: VirtioDeviceFeaturesBank1 { bits: bank1 },
        }
    }

    pub open spec fn spec_bank0(&self) -> VirtioDeviceFeaturesBank0 {
        self.bank0
    }

    /// Features 0 to 31.
    #[verifier::when_used_as_spec(spec_bank0)]
    pub fn bank0(&self) -> (bank: VirtioDeviceFeaturesBank0)
        ensures
            bank == self.bank0,
    {
        self.bank0
    }

    pub open spec fn spec_bank1(&self) -> VirtioDeviceFeaturesBank1 {
        self.bank1
    }

    /// Features 32 to 63.
    #[verifier::when_used_as_spec(spec_bank1)]
    pub fn bank1(&self) -> (bank: VirtioDeviceFeaturesBank1)
        ensures
            bank == self.bank1,
    {
        self.bank1
    }
}

impl VirtioDeviceFeaturesBank0 {
    pub open spec fn spec_ring_indirect_desc(&self) -> bool {
        self.bits & 0x1000_0000 != 0
    }

    /// Feature 28: a descriptor may refer to a table of descriptors.
    #[verifier::when_used_as_spec(spec_ring_indirect_desc)]
    pub fn ring_indirect_desc(&self) -> (set: bool)
        ensures
            set == self.ring_indirect_desc(),
    {
        self.bits & 0x1000_0000 != 0
    }

    pub open spec fn spec_ring_event_idx(&self) -> bool {
        self.bits & 0x2000_0000 != 0
    }

    /// Feature 29: either side may name the index at which it wants an event.
    #[verifier::when_used_as_spec(spec_ring_event_idx)]
    pub fn ring_event_idx(&self) -> (set: bool)
        ensures
            set == self.ring_event_idx(),
    {
        self.bits & 0x2000_0000 != 0
    }
}

impl VirtioDeviceFeaturesBank1 {
    pub open spec fn spec_ring_packed(&self) -> bool {
        self.bits & 0x4 != 0
    }

    /// Feature 34: queues have the packed layout.
    #[verifier::when_used_as_spec(spec_ring_packed)]
    pub fn ring_packed(&self) -> (set: bool)
        ensures
            set == self.ring_packed(),
    {
        self.bits & 0x4 != 0
    }
}

/// The flags of a descriptor.
#[derive(Debug, Clone, Copy, PartialEq, Eq)]
pub struct DescriptorFlags {
    pub bits: u16,
}

impl DescriptorFlags {
    /// No flag set.
    pub fn new() -> (flags: Self)
        ensures
            flags.bits == 0,
    {
        DescriptorFlags { bits: 0 }
    }

    pub open spec fn spec_next(&self) -> bool {
        self.bits & 0x0001 != 0
    }

    /// The chain goes on with another descriptor.
    #[verifier::when_used_as_spec(spec_next)]
    pub fn next(&self) -> (set: bool)
        ensures
            set == self.next(),
    {
        self.bits & 0x0001 != 0
    }

    pub open spec fn spec_write(&self) -> bool {
        self.bits & 0x0002 != 0
    }

    /// The device may write to the buffer.
    #[verifier::when_used_as_spec(spec_write)]
    pub fn write(&self) -> (set: bool)
        ensures
            set == self.write(),
    {
        self.bits & 0x0002 != 0
    }

    pub open spec fn spec_indirect(&self) -> bool {
        self.bits & 0x0004 != 0
    }

    /// The buffer holds a table of descriptors.
    #[verifier::when_used_as_spec(spec_indirect)]
    pub fn indirect(&self) -> (set: bool)
        ensures
            set == self.indirect(),
    {
        self.bits & 0x0004 != 0
    }

    pub open spec fn spec_available(&self) -> bool {
        self.bits & 0x0080 != 0
    }

    /// The lap in which the driver made a packed descriptor available.
    #[verifier::when_used_as_spec(spec_available)]
    pub fn available(&self) -> (set: bool)
        ensures
            set == self.available(),
    {
        self.bits & 0x0080 != 0
    }

    pub open spec fn spec_used(&self) -> bool {
        self.bits & 0x8000 != 0
    }

    /// The lap in which the device used a packed descriptor.
    #[verifier::when_used_as_spec(spec_used)]
    pub fn used(&self) -> (set: bool)
        ensures
            set == self.used(),
    {
        self.bits & 0x8000 != 0
    }

    pub open spec fn spec_with_available(self, set: bool) -> Self {
        DescriptorFlags { bits: if set { self.bits | 0x0080 } else { self.bits & !0x0080u16 } }
    }

    /// The same flags with the available flag set or cleared.
    #[verifier::when_used_as_spec(spec_with_available)]
    pub fn with_available(self, set: bool) -> (flags: Self)
        ensures
            flags == self.with_available(set),
    {
        DescriptorFlags { bits: if set { self.bits | 0x0080 } else { self.bits & !0x0080u16 } }
    }

    pub open spec fn spec_with_used(self, set: bool) -> Self {
        DescriptorFlags { bits: if set { self.bits | 0x8000 } else { self.bits & !0x8000u16 } }
    }

    /// The same flags with the used flag set or cleared.
    #[verifier::when_used_as_spec(spec_with_used)]
    pub fn with_used(self, set: bool) -> (flags: Self)
        ensures
            flags == self.with_used(set),
    {
        DescriptorFlags { bits: if set { self.bits | 0x8000 } else { self.bits & !0x8000u16 } }
    }
}

/// The flags of the available ring.
#[derive(Debug, Clone, Copy, PartialEq, Eq)]
pub struct AvailableFlags {
    pub bits: u16,
}

impl AvailableFlags {
    pub open spec fn spec_no_interrupt(&self) -> bool {
        self.bits & 0x0001 != 0
    }

    /// The driver does not want to be told of used descriptors.
    #[verifier::when_used_as_spec(spec_no_interrupt)]
    pub fn no_interrupt(&self) -> (set: bool)
        ensures
            set == self.no_interrupt(),
    {
        self.bits & 0x0001 != 0
    }
}

/// The flags of the used ring.
#[derive(Debug, Clone, Copy, PartialEq, Eq)]
pub struct UsedFlags {
    pub bits: u16,
}

impl UsedFlags {
    /// The flags with which the device asks to be told, or not to be told, of
    /// available descriptors.
    pub open spec fn spec_no_notify(set: bool) -> Self {
        UsedFlags { bits: if set { 1 } else { 0 } }
    }

    /// No flag set.
    pub fn new() -> (flags: Self)
        ensures
            flags == Self::spec_no_notify(false),
    {
        UsedFlags { bits: 0 }
    }

    /// The same flags with the flag set, or cleared, by which the device does
    /// not want to be told of available descriptors.
    pub fn with_no_notify(self, set: bool) -> (flags: Self)
        ensures
            flags.bits == (if set { self.bits | 1 } else { self.bits & !1u16 }),
            self.bits == 0 ==> flags == Self::spec_no_notify(set),
    {
        let bits: u16 = self.bits;
        assert(0u16 | 1 == 1 && 0u16 & !1u16 == 0) by (bit_vector);
        UsedFlags { bits: if set { bits | 1 } else { bits & !1u16 } }
    }
}

/// A descriptor of a split queue.
#[derive(Debug, Clone, Copy, PartialEq, Eq)]
pub struct SplitDescriptor {
    pub address: u64,
    pub length: u32,
    pub flags: DescriptorFlags,
    pub next: u16,
}

impl SplitDescriptor {
    /// The descriptor that sixteen bytes hold.
    pub open spec fn of_bytes(b: Seq<u8>) -> Self {
        SplitDescriptor {
            address: le::le_u64(b.subrange(0, 8)),
            length: le::le_u32(b.subrange(8, 12)),
            flags: DescriptorFlags { bits: le::le_u16(b.subrange(12, 14)) },
            next: le::le_u16(b.subrange(14, 16)),
        }
    }

    /// The sixteen bytes of the descriptor.
    pub open spec fn bytes(&self) -> Seq<u8> {
        le::u64_bytes(self.address) + le::u32_bytes(self.length) + le::u16_bytes(self.flags.bits)
            + le::u16_bytes(self.next)
    }

    /// Reads a descriptor.
    pub fn read(data: &Vec<u8>) -> (descriptor: Self)
        requires
            data@.len() == DESCRIPTOR_SIZE,
        ensures
            descriptor == Self::of_bytes(data@),
    {
        SplitDescriptor {
            address: le::read_u64(data, 0),
            length: le::read_u32(data, 8),
            flags: DescriptorFlags { bits: le::read_u16(data, 12) },
            next: le::read_u16(data, 14),
        }
    }
}

/// A descriptor of a packed queue.
#[derive(Debug, Clone, Copy, PartialEq, Eq)]
pub struct PackedDescriptor {
    pub address: u64,
    pub length: u32,
    pub buffer_id: u16,
    pub flags: DescriptorFlags,
}

impl PackedDescriptor {
    /// The descriptor that sixteen bytes hold.
    pub open spec fn of_bytes(b: Seq<u8>) -> Self {
        PackedDescriptor {
            address: le::le_u64(b.subrange(0, 8)),
            length: le::le_u32(b.subrange(8, 12)),
            buffer_id: le::le_u16(b.subrange(12, 14)),
            flags: DescriptorFlags { bits: le::le_u16(b.subrange(14, 16)) },
        }
    }

    /// The sixteen bytes of the descriptor.
    pub open spec fn bytes(&self) -> Seq<u8> {
        le::u64_bytes(self.address) + le::u32_bytes(self.length) + le::u16_bytes(self.buffer_id)
            + le::u16_bytes(self.flags.bits)
    }

    /// Reads a descriptor.
    pub fn read(data: &Vec<u8>) -> (descriptor: Self)
        requires
            data@.len() == DESCRIPTOR_SIZE,
        ensures
            descriptor == Self::of_bytes(data@),
    {
        PackedDescriptor {
            address: le::read_u64(data, 0),
            length: le::read_u32(data, 8),
            buffer_id: le::read_u16(data, 12),
            flags: DescriptorFlags { bits: le::read_u16(data, 14) },
        }
    }
}

/// An element of the used ring of a split queue.
#[derive(Debug, Clone, Copy, PartialEq, Eq)]
pub struct UsedElement {
    pub id: u32,
    pub len: u32,
}

impl UsedElement {
    /// The eight bytes of the element.
    pub open spec fn bytes(&self) -> Seq<u8> {
        le::u32_bytes(self.id) + le::u32_bytes(self.len)
    }

    /// The element that eight bytes hold.
    pub open spec fn of_bytes(b: Seq<u8>) -> Self {
        UsedElement { id: le::le_u32(b.subrange(0, 4)), len: le::le_u32(b.subrange(4, 8)) }
    }
}

/// When a side of a packed queue wants events.
#[derive(Debug, Clone, Copy, PartialEq, Eq)]
pub enum EventSuppressionFlags {
    Enabled,
    Disabled,
    DescriptorIndex,
    Reserved,
}

/// An event suppression structure of a packed queue: a ring position in bits 0
/// to 14, its wrap counter in bit 15, and the flags in bits 16 and 17.
#[derive(Debug, Clone, Copy, PartialEq, Eq)]
pub struct PackedEventSuppresion {
    pub bits: u32,
}

impl PackedEventSuppresion {
    /// All bits clear.
    pub fn new() -> (event: Self)
        ensures
            event.bits == 0,
    {
        PackedEventSuppresion { bits: 0 }
    }

    /// The bits, above bit 16, of the given flags.
    pub open spec fn code(flags: EventSuppressionFlags) -> u32 {
        match flags {
            EventSuppressionFlags::Enabled => 0,
            EventSuppressionFlags::Disabled => 1,
            EventSuppressionFlags::DescriptorIndex => 2,
            EventSuppressionFlags::Reserved => 3,
        }
    }

    pub open spec fn spec_flags(&self) -> EventSuppressionFlags {
        let code = self.bits / 0x1_0000 % 4;
        if code == 0 {
            EventSuppressionFlags::Enabled
        } else if code == 1 {
            EventSuppressionFlags::Disabled
        } else if code == 2 {
            EventSuppressionFlags::DescriptorIndex
        } else {
            EventSuppressionFlags::Reserved
        }
    }

    /// When events are wanted.
    #[verifier::when_used_as_spec(spec_flags)]
    pub fn flags(&self) -> (flags: EventSuppressionFlags)
        ensures
            flags == self.flags(),
    {
        let code: u32 = self.bits / 0x1_0000 % 4;
        if code == 0 {
            EventSuppressionFlags::Enabled
        } else if code == 1 {
            EventSuppressionFlags::Disabled
        } else if code == 2 {
            EventSuppressionFlags::DescriptorIndex
        } else {
            EventSuppressionFlags::Reserved
        }
    }

    /// The same structure with other flags.
    pub open spec fn spec_with_flags(self, flags: EventSuppressionFlags) -> Self {
        PackedEventSuppresion {
            bits: (self.bits - self.bits / 0x1_0000 % 4 * 0x1_0000 + Self::code(flags)
                * 0x1_0000) as u32,
        }
    }

    /// The same structure with other flags.
    #[verifier::when_used_as_spec(spec_with_flags)]
    pub fn with_flags(self, flags: EventSuppressionFlags) -> (event: Self)
        ensures
            event == self.with_flags(flags),
    {
        let code: u32 = match flags {
            EventSuppressionFlags::Enabled => 0,
            EventSuppressionFlags::Disabled => 1,
            EventSuppressionFlags::DescriptorIndex => 2,
            EventSuppressionFlags::Reserved => 3,
        };
        let rest: u32 = self.bits - self.bits / 0x1_0000 % 4 * 0x1_0000;
        PackedEventSuppresion { bits: rest + code * 0x1_0000 }
    }

    pub open spec fn spec_offset(&self) -> u16 {
        (self.bits % 0x8000) as u16
    }

    /// The ring position at which an event is wanted.
    #[verifier::when_used_as_spec(spec_offset)]
    pub fn offset(&self) -> (offset: u16)
        ensures
            offset == self.offset(),
    {
        (self.bits % 0x8000) as u16
    }

    pub open spec fn spec_wrap(&self) -> bool {
        self.bits / 0x8000 % 2 == 1
    }

    /// The wrap counter of that position.
    #[verifier::when_used_as_spec(spec_wrap)]
    pub fn wrap(&self) -> (wrap: bool)
        ensures
            wrap == self.wrap(),
    {
        self.bits / 0x8000 % 2 == 1
    }
}

} // verus!
