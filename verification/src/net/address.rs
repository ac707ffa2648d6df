//! Network addresses.

use vstd::prelude::*;

verus! {

/// A six-octet Ethernet address.
#[derive(Debug, Clone, Copy, PartialEq, Eq)]
pub struct EthernetAddress {
    pub octets: [u8; 6],
}

/// An IPv4 address.
#[derive(Debug, Clone, Copy, PartialEq, Eq)]
pub struct Ipv4Address {
    pub octets: [u8; 4],
}

/// An IPv6 address.
#[derive(Debug, Clone, Copy, PartialEq, Eq)]
pub struct Ipv6Address {
    pub octets: [u8; 16],
}

/// The two octets of a number in network byte order.
pub open spec fn be_bytes(v: u16) -> Seq<u8> {
    seq![(v / 0x100) as u8, (v % 0x100) as u8]
}

fn high(v: u16) -> (octet: u8)
    ensures
        octet == v / 0x100,
{
    (v / 0x100) as u8
}

fn low(v: u16) -> (octet: u8)
    ensures
        octet == v % 0x100,
{
    (v % 0x100) as u8
}

impl Ipv4Address {
    /// The address with the given octets.
    pub fn new(a: u8, b: u8, c: u8, d: u8) -> (address: Self)
        ensures
            address.octets@ == seq![a, b, c, d],
    {
        let address = Ipv4Address { octets: [a, b, c, d] };
        assert(address.octets@ =~= seq![a, b, c, d]);
        address
    }
}

impl Ipv6Address {
    /// The address with the given groups of 16 bits.
    pub fn new(a: u16, b: u16, c: u16, d: u16, e: u16, f: u16, g: u16, h: u16) -> (address: Self)
        ensures
            address.octets@ == be_bytes(a) + be_bytes(b) + be_bytes(c) + be_bytes(d) + be_bytes(e)
                + be_bytes(f) + be_bytes(g) + be_bytes(h),
    {
        let address = Ipv6Address {
            octets: [
                high(a),
                low(a),
                high(b),
                low(b),
                high(c),
                low(c),
                high(d),
                low(d),
                high(e),
                low(e),
                high(f),
                low(f),
                high(g),
                low(g),
                high(h),
                low(h),
            ],
        };
        assert(address.octets@ =~= be_bytes(a) + be_bytes(b) + be_bytes(c) + be_bytes(d) + be_bytes(
            e,
        ) + be_bytes(f) + be_bytes(g) + be_bytes(h));
        address
    }

    /// The bit at `i`, where bit 0 is the most significant one.
    pub open spec fn bit(&self, i: int) -> bool {
        (self.octets@[i / 8] >> ((7 - i % 8) as u8)) & 1 == 1
    }
}

/// Whether two addresses have their first `prefix_len` bits in common. An
/// address has 128 bits; a longer prefix is the whole address.
pub open spec fn same_prefix(a: Ipv6Address, b: Ipv6Address, prefix_len: int) -> bool {
    forall|i: int| 0 <= i < prefix_len && i < 128 ==> #[trigger] a.bit(i) == b.bit(i)
}

/// Whether two addresses lie in one subnet with the given prefix length.
pub fn is_same_ipv6_subnet(a: Ipv6Address, b: Ipv6Address, prefix_len: u8) -> (same: bool)
    ensures
        same == same_prefix(a, b, prefix_len as int),
{
    let bits: u8 = if prefix_len < 128 {
        prefix_len
    } else {
        128
    };
    let mut i: u8 = 0;
    while i < bits
        invariant
            i <= bits <= 128,
            bits <= prefix_len,
            forall|k: int| 0 <= k < i ==> #[trigger] a.bit(k) == b.bit(k),
        decreases bits - i,
    {
        let shift: u8 = 7 - i % 8;
        let octet: usize = (i / 8) as usize;
        let of_a: u8 = (a.octets[octet] >> shift) & 1;
        let of_b: u8 = (b.octets[octet] >> shift) & 1;
        proof {
            let x = a.octets[octet as int];
            let y = b.octets[octet as int];
            assert((x >> shift) & 1 <= 1) by (bit_vector);
            assert((y >> shift) & 1 <= 1) by (bit_vector);
        }
        if of_a != of_b {
            assert(a.bit(i as int) != b.bit(i as int));
            return false;
        }
        i = i + 1;
    }
    true
}

/// Addresses lie in one subnet with themselves, in whatever order they are
/// named, and a subnet with a longer prefix lies in the one with a shorter
/// prefix. With no prefix all addresses are in one subnet.
pub proof fn law_subnets(
    a: Ipv6Address,
    b: Ipv6Address,
    c: Ipv6Address,
    prefix_len: int,
    shorter: int,
)
    requires
        shorter <= prefix_len,
    ensures
        same_prefix(a, a, prefix_len),
        same_prefix(a, b, prefix_len) ==> same_prefix(b, a, prefix_len),
        same_prefix(a, b, prefix_len) && same_prefix(b, c, prefix_len) ==> same_prefix(
            a,
            c,
            prefix_len,
        ),
        same_prefix(a, b, prefix_len) ==> same_prefix(a, b, shorter),
        same_prefix(a, b, 0),
{
    if same_prefix(a, b, prefix_len) {
        assert forall|i: int| 0 <= i < prefix_len && i < 128 implies #[trigger] b.bit(i) == a.bit(
            i,
        ) by {
            assert(a.bit(i) == b.bit(i));
        }
    }
}

/// With a prefix of 128 bits or more, an address is in one subnet with itself
/// alone.
pub proof fn law_whole_address(a: Ipv6Address, b: Ipv6Address, prefix_len: int)
    requires
        prefix_len >= 128,
    ensures
        same_prefix(a, b, prefix_len) <==> a.octets@ == b.octets@,
{
    if same_prefix(a, b, prefix_len) {
        assert forall|k: int| 0 <= k < 16 implies a.octets@[k] == b.octets@[k] by {
            assert(a.bit(8 * k) == b.bit(8 * k));
            assert(a.bit(8 * k + 1) == b.bit(8 * k + 1));
            assert(a.bit(8 * k + 2) == b.bit(8 * k + 2));
            assert(a.bit(8 * k + 3) == b.bit(8 * k + 3));
            assert(a.bit(8 * k + 4) == b.bit(8 * k + 4));
            assert(a.bit(8 * k + 5) == b.bit(8 * k + 5));
            assert(a.bit(8 * k + 6) == b.bit(8 * k + 6));
            assert(a.bit(8 * k + 7) == b.bit(8 * k + 7));
            lemma_octet_of_bits(a.octets@[k], b.octets@[k]);
        }
        assert(a.octets@ =~= b.octets@);
    }
}

proof fn lemma_octet_of_bits(x: u8, y: u8)
    by (bit_vector)
    requires
        ((x >> 7u8) & 1 == 1) == ((y >> 7u8) & 1 == 1),
        ((x >> 6u8) & 1 == 1) == ((y >> 6u8) & 1 == 1),
        ((x >> 5u8) & 1 == 1) == ((y >> 5u8) & 1 == 1),
        ((x >> 4u8) & 1 == 1) == ((y >> 4u8) & 1 == 1),
        ((x >> 3u8) & 1 == 1) == ((y >> 3u8) & 1 == 1),
        ((x >> 2u8) & 1 == 1) == ((y >> 2u8) & 1 == 1),
        ((x >> 1u8) & 1 == 1) == ((y >> 1u8) & 1 == 1),
        ((x >> 0u8) & 1 == 1) == ((y >> 0u8) & 1 == 1),
    ensures
        x == y,
{
}

} // verus!
