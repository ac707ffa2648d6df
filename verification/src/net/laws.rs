//! What holds of the frames of a guest, octet by octet.

use crate::net::address;
use crate::net::address::{EthernetAddress, Ipv4Address, Ipv6Address};
use crate::net::loopback;
use crate::net::loopback::ReceivedPacket;
use crate::net::syn;
use vstd::prelude::*;

verus! {

/// Numbers are written with their most significant octet first.
pub proof fn law_network_byte_order(v: u16, w: u32)
    ensures
        address::be_bytes(v).len() == 2,
        address::be_bytes(v)[0] * 0x100 + address::be_bytes(v)[1] == v,
        syn::be_bytes_32(w).len() == 4,
        syn::be_bytes_32(w)[0] * 0x100_0000 + syn::be_bytes_32(w)[1] * 0x1_0000
            + syn::be_bytes_32(w)[2] * 0x100 + syn::be_bytes_32(w)[3] == w,
{
}

/// The weight of the bit at `i` of an octet, where bit 0 is the most significant
/// one.
pub open spec fn weight(i: int) -> int {
    if i == 0 {
        128
    } else if i == 1 {
        64
    } else if i == 2 {
        32
    } else if i == 3 {
        16
    } else if i == 4 {
        8
    } else if i == 5 {
        4
    } else if i == 6 {
        2
    } else {
        1
    }
}

/// Whether two addresses have the same bit at `i`, where bit 0 is the most
/// significant one of the first octet.
pub open spec fn same_bit(a: Seq<u8>, b: Seq<u8>, i: int) -> bool {
    a[i / 8] as int / weight(i % 8) % 2 == b[i / 8] as int / weight(i % 8) % 2
}

proof fn lemma_bit(a: Ipv6Address, i: int)
    requires
        0 <= i < 128,
    ensures
        a.bit(i) <==> a.octets@[i / 8] as int / weight(i % 8) % 2 == 1,
{
    let x = a.octets@[i / 8];
    assert(((x >> 7u8) & 1 == 1) == (x / 128u8 % 2 == 1) && ((x >> 6u8) & 1 == 1) == (x / 64u8 % 2
        == 1) && ((x >> 5u8) & 1 == 1) == (x / 32u8 % 2 == 1) && ((x >> 4u8) & 1 == 1) == (x / 16u8
        % 2 == 1) && ((x >> 3u8) & 1 == 1) == (x / 8u8 % 2 == 1) && ((x >> 2u8) & 1 == 1) == (x
        / 4u8 % 2 == 1) && ((x >> 1u8) & 1 == 1) == (x / 2u8 % 2 == 1) && ((x >> 0u8) & 1 == 1)
        == (x / 1u8 % 2 == 1)) by (bit_vector);
}

/// Two addresses lie in one subnet exactly where their first bits are the same,
/// as many as the prefix says, and all of them where it says more.
pub proof fn law_subnet_bits(a: Ipv6Address, b: Ipv6Address, prefix_len: int)
    ensures
        address::same_prefix(a, b, prefix_len) <==> (forall|i: int|
            0 <= i < 128 && i < prefix_len ==> #[trigger] same_bit(a.octets@, b.octets@, i)),
{
    assert forall|i: int| 0 <= i < 128 implies (a.bit(i) == b.bit(i)) == #[trigger] same_bit(
        a.octets@,
        b.octets@,
        i,
    ) by {
        lemma_bit(a, i);
        lemma_bit(b, i);
    }
    if address::same_prefix(a, b, prefix_len) {
        assert forall|i: int| 0 <= i < 128 && i < prefix_len implies #[trigger] same_bit(
            a.octets@,
            b.octets@,
            i,
        ) by {
            assert(a.bit(i) == b.bit(i));
        }
    }
    if forall|i: int|
        0 <= i < 128 && i < prefix_len ==> #[trigger] same_bit(a.octets@, b.octets@, i) {
        assert forall|i: int| 0 <= i < prefix_len && i < 128 implies #[trigger] a.bit(i) == b.bit(
            i,
        ) by {
            assert(same_bit(a.octets@, b.octets@, i));
        }
    }
}

/// Whether `data` holds `part` from `at` on.
pub open spec fn holds(data: Seq<u8>, at: int, part: Seq<u8>) -> bool {
    forall|k: int| 0 <= k < part.len() ==> data[at + k] == #[trigger] part[k]
}

proof fn lemma_holds(data: Seq<u8>, at: int, part: Seq<u8>)
    requires
        0 <= at,
        at + part.len() <= data.len(),
    ensures
        data.subrange(at, at + part.len()) == part <==> holds(data, at, part),
{
    let found = data.subrange(at, at + part.len());
    if found == part {
        assert forall|k: int| 0 <= k < part.len() implies data[at + k] == #[trigger] part[k] by {
            assert(found[k] == part[k]);
        }
    }
    if holds(data, at, part) {
        assert(found =~= part);
    }
}

/// Whether a frame goes from one Ethernet address, in octets 6 to 11, to the
/// other, in octets 0 to 5.
pub open spec fn has_macs(
    frame: Seq<u8>,
    src_mac: EthernetAddress,
    dst_mac: EthernetAddress,
) -> bool {
    holds(frame, 0, dst_mac.octets@) && holds(frame, 6, src_mac.octets@)
}

/// Whether a frame has the number of IPv4 in octets 12 and 13, the one IP address
/// in octets 26 to 29 and the other in octets 30 to 33.
pub open spec fn has_ipv4(frame: Seq<u8>, src_ip: Ipv4Address, dst_ip: Ipv4Address) -> bool {
    &&& frame[12] == 0x08 && frame[13] == 0x00
    &&& holds(frame, 26, src_ip.octets@) && holds(frame, 30, dst_ip.octets@)
}

/// Whether a frame has the number of IPv6 in octets 12 and 13, the one IP address
/// in octets 22 to 37 and the other in octets 38 to 53.
pub open spec fn has_ipv6(frame: Seq<u8>, src_ip: Ipv6Address, dst_ip: Ipv6Address) -> bool {
    &&& frame[12] == 0x86 && frame[13] == 0xdd
    &&& holds(frame, 22, src_ip.octets@) && holds(frame, 38, dst_ip.octets@)
}

proof fn lemma_ethertype(frame: Seq<u8>)
    requires
        frame.len() >= 14,
    ensures
        loopback::is_ipv4(frame) <==> frame[12] == 0x08 && frame[13] == 0x00,
        loopback::is_ipv6(frame) <==> frame[12] == 0x86 && frame[13] == 0xdd,
{
    let found = frame.subrange(12, 14);
    assert(address::be_bytes(0x0800) =~= seq![0x08u8, 0x00]);
    assert(address::be_bytes(0x86dd) =~= seq![0x86u8, 0xdd]);
    assert(found[0] == frame[12] && found[1] == frame[13]);
    if frame[12] == 0x08 && frame[13] == 0x00 {
        assert(found =~= address::be_bytes(0x0800));
    }
    if frame[12] == 0x86 && frame[13] == 0xdd {
        assert(found =~= address::be_bytes(0x86dd));
    }
}

/// A frame is between two Ethernet addresses exactly where its octets say so.
pub proof fn law_between_macs(frame: Seq<u8>, src_mac: EthernetAddress, dst_mac: EthernetAddress)
    requires
        frame.len() >= 14,
    ensures
        loopback::between_macs(frame, src_mac, dst_mac) <==> has_macs(frame, src_mac, dst_mac),
{
    lemma_holds(frame, 0, dst_mac.octets@);
    lemma_holds(frame, 6, src_mac.octets@);
}

/// Whether a frame holds an IPv4 packet between two addresses can be told from
/// its first fourteen octets where they say that it holds no IPv4 packet, from
/// its first thirty where it has another source, and from its first 34 else.
pub proof fn law_tells_ipv4(frame: Seq<u8>, src_ip: Ipv4Address)
    ensures
        loopback::tells_ipv4(frame, src_ip) <==> frame.len() >= 14 && (!(frame[12] == 0x08
            && frame[13] == 0x00) || frame.len() >= 34 || (frame.len() >= 30 && !holds(
            frame,
            26,
            src_ip.octets@,
        ))),
{
    if frame.len() >= 14 {
        lemma_ethertype(frame);
    }
    if frame.len() >= 30 {
        lemma_holds(frame, 26, src_ip.octets@);
    }
}

/// The same of an IPv6 packet, with 38 octets for the source and 54 for both
/// addresses.
pub proof fn law_tells_ipv6(frame: Seq<u8>, src_ip: Ipv6Address)
    ensures
        loopback::tells_ipv6(frame, src_ip) <==> frame.len() >= 14 && (!(frame[12] == 0x86
            && frame[13] == 0xdd) || frame.len() >= 54 || (frame.len() >= 38 && !holds(
            frame,
            22,
            src_ip.octets@,
        ))),
{
    if frame.len() >= 14 {
        lemma_ethertype(frame);
    }
    if frame.len() >= 38 {
        lemma_holds(frame, 22, src_ip.octets@);
    }
}

/// A frame from which it can be told holds an IPv4 packet between two addresses
/// exactly where its octets say so.
pub proof fn law_between_ipv4(frame: Seq<u8>, src_ip: Ipv4Address, dst_ip: Ipv4Address)
    requires
        loopback::tells_ipv4(frame, src_ip),
    ensures
        loopback::between_ipv4(frame, src_ip, dst_ip) <==> has_ipv4(frame, src_ip, dst_ip),
{
    law_tells_ipv4(frame, src_ip);
    lemma_ethertype(frame);
    if frame.len() >= 30 {
        lemma_holds(frame, 26, src_ip.octets@);
    }
    if frame.len() >= 34 {
        lemma_holds(frame, 30, dst_ip.octets@);
    }
}

/// A frame from which it can be told holds an IPv6 packet between two addresses
/// exactly where its octets say so.
pub proof fn law_between_ipv6(frame: Seq<u8>, src_ip: Ipv6Address, dst_ip: Ipv6Address)
    requires
        loopback::tells_ipv6(frame, src_ip),
    ensures
        loopback::between_ipv6(frame, src_ip, dst_ip) <==> has_ipv6(frame, src_ip, dst_ip),
{
    law_tells_ipv6(frame, src_ip);
    lemma_ethertype(frame);
    if frame.len() >= 38 {
        lemma_holds(frame, 22, src_ip.octets@);
    }
    if frame.len() >= 54 {
        lemma_holds(frame, 38, dst_ip.octets@);
    }
}

/// An IPv4 packet has come back exactly where one of the received frames holds
/// it, whichever it is.
pub proof fn law_ipv4_not_looped_back(
    received: Seq<ReceivedPacket>,
    src_ip: Ipv4Address,
    dst_ip: Ipv4Address,
)
    requires
        forall|i: int|
            0 <= i < received.len() ==> loopback::tells_ipv4(#[trigger] received[i].data@, src_ip),
    ensures
        loopback::none_between_ipv4(received, src_ip, dst_ip) <==> !(exists|i: int|
            0 <= i < received.len() && has_ipv4(#[trigger] received[i].data@, src_ip, dst_ip)),
{
    assert forall|i: int| 0 <= i < received.len() implies loopback::between_ipv4(
        #[trigger] received[i].data@,
        src_ip,
        dst_ip,
    ) == has_ipv4(received[i].data@, src_ip, dst_ip) by {
        law_between_ipv4(received[i].data@, src_ip, dst_ip);
    }
}

/// An IPv6 packet has come back exactly where one of the received frames holds
/// it, whichever it is.
pub proof fn law_ipv6_not_looped_back(
    received: Seq<ReceivedPacket>,
    src_ip: Ipv6Address,
    dst_ip: Ipv6Address,
)
    requires
        forall|i: int|
            0 <= i < received.len() ==> loopback::tells_ipv6(#[trigger] received[i].data@, src_ip),
    ensures
        loopback::none_between_ipv6(received, src_ip, dst_ip) <==> !(exists|i: int|
            0 <= i < received.len() && has_ipv6(#[trigger] received[i].data@, src_ip, dst_ip)),
{
    assert forall|i: int| 0 <= i < received.len() implies loopback::between_ipv6(
        #[trigger] received[i].data@,
        src_ip,
        dst_ip,
    ) == has_ipv6(received[i].data@, src_ip, dst_ip) by {
        law_between_ipv6(received[i].data@, src_ip, dst_ip);
    }
}

/// One IPv4 packet has come back exactly where there is one frame, with a header
/// checksum that is known to be right, whole headers and the right addresses.
pub proof fn law_ipv4_looped_back(
    received: Seq<ReceivedPacket>,
    src_mac: EthernetAddress,
    dst_mac: EthernetAddress,
    src_ip: Ipv4Address,
    dst_ip: Ipv4Address,
)
    ensures
        loopback::ipv4_came_back(received, src_mac, dst_mac, src_ip, dst_ip) <==> {
            &&& received.len() == 1
            &&& received[0].ipv4_checksum
            &&& received[0].data@.len() >= 34
            &&& has_macs(received[0].data@, src_mac, dst_mac)
            &&& has_ipv4(received[0].data@, src_ip, dst_ip)
        },
{
    let frame = received[0].data@;
    if frame.len() >= 34 {
        law_between_macs(frame, src_mac, dst_mac);
        law_between_ipv4(frame, src_ip, dst_ip);
    }
}

/// One IPv6 packet has come back exactly where there is one frame, with whole
/// headers and the right addresses.
pub proof fn law_ipv6_looped_back(
    received: Seq<ReceivedPacket>,
    src_mac: EthernetAddress,
    dst_mac: EthernetAddress,
    src_ip: Ipv6Address,
    dst_ip: Ipv6Address,
)
    ensures
        loopback::ipv6_came_back(received, src_mac, dst_mac, src_ip, dst_ip) <==> {
            &&& received.len() == 1
            &&& received[0].data@.len() >= 54
            &&& has_macs(received[0].data@, src_mac, dst_mac)
            &&& has_ipv6(received[0].data@, src_ip, dst_ip)
        },
{
    let frame = received[0].data@;
    if frame.len() >= 54 {
        law_between_macs(frame, src_mac, dst_mac);
        law_between_ipv6(frame, src_ip, dst_ip);
    }
}

/// The sum of octets, of which those at even places, from the first on, count
/// 256 times.
pub open spec fn weighted_sum(data: Seq<u8>) -> nat
    decreases data.len(),
{
    if data.len() == 0 {
        0
    } else {
        weighted_sum(data.drop_last()) + data.last() as nat * (if data.len() % 2 == 1 {
            0x100nat
        } else {
            1
        })
    }
}

proof fn lemma_weighted_sum_concat(a: Seq<u8>, b: Seq<u8>)
    requires
        a.len() % 2 == 0,
    ensures
        weighted_sum(a + b) == weighted_sum(a) + weighted_sum(b),
    decreases b.len(),
{
    if b.len() == 0 {
        assert(a + b =~= a);
    } else {
        assert((a + b).drop_last() =~= a + b.drop_last());
        assert((a + b).last() == b.last());
        lemma_weighted_sum_concat(a, b.drop_last());
    }
}

proof fn lemma_weighted_sum_pair(a: u8, b: u8)
    ensures
        weighted_sum(seq![a, b]) == a * 0x100 + b,
{
    reveal_with_fuel(weighted_sum, 3);
    assert(seq![a, b].drop_last() =~= seq![a]);
    assert(seq![a].drop_last() =~= Seq::empty());
}

/// The sum that a checksum is made of is that of the octets, with those at even
/// places 256 times.
pub proof fn law_word_sum(data: Seq<u8>)
    ensures
        syn::word_sum(data) == weighted_sum(data),
    decreases data.len(),
{
    if data.len() == 1 {
        assert(data =~= seq![data[0]]);
        assert(data.drop_last() =~= Seq::empty());
        reveal_with_fuel(weighted_sum, 2);
    } else if data.len() >= 2 {
        law_word_sum(data.skip(2));
        lemma_weighted_sum_pair(data[0], data[1]);
        lemma_weighted_sum_concat(seq![data[0], data[1]], data.skip(2));
        assert(data =~= seq![data[0], data[1]] + data.skip(2));
    }
}

/// A checksum makes a sum that is not 0 a multiple of 65535.
pub proof fn law_checksum_cancels(sum: nat)
    requires
        sum > 0,
    ensures
        (sum + syn::internet_checksum(sum)) % 0xffff == 0,
{
}

/// The octets of the SYN segment before its checksum: the ports, the sequence
/// number, no acknowledgement, the length of the header in words of four octets,
/// the SYN flag and the window.
pub open spec fn before_checksum() -> Seq<u8> {
    seq![0xad, 0x9c, 0, 80, 0, 0, 3, 0xe8, 0, 0, 0, 0, 0x70, 2, 0xfa, 0xf0]
}

/// The octets behind its checksum: no urgent pointer, the option of the largest
/// segment, that of the window scale, and the end of the options.
pub open spec fn after_checksum() -> Seq<u8> {
    seq![0, 0, 2, 4, 5, 0xb4, 3, 3, 7, 0]
}

/// Whether `frame` holds, from `at` on, the SYN segment from port 44444 to port
/// 80: with the sequence number 1000, a header of 28 octets, the window 64240,
/// the largest segment 1460 and the window scale 7. Its checksum is in octets 16
/// and 17.
pub open spec fn has_probe(frame: Seq<u8>, at: int) -> bool {
    holds(frame, at, before_checksum()) && holds(frame, at + 18, after_checksum())
}

proof fn lemma_probe(checksum: u16)
    ensures
        ({
            let segment = syn::syn_segment(syn::probe(), checksum);
            let first = before_checksum();
            let last = after_checksum();
            &&& segment == first + address::be_bytes(checksum) + last
            &&& weighted_sum(segment) == weighted_sum(first) + checksum + weighted_sum(last)
        }),
{
    let segment = syn::syn_segment(syn::probe(), checksum);
    let first = before_checksum();
    let last = after_checksum();
    let sum = address::be_bytes(checksum);
    assert(syn::syn_len(Some(7), Some(1460)) == 28);
    assert(segment =~= first + sum + last);
    lemma_weighted_sum_concat(first + sum, last);
    lemma_weighted_sum_concat(first, sum);
    assert(sum =~= seq![sum[0], sum[1]]);
    lemma_weighted_sum_pair(sum[0], sum[1]);
}

/// The segment between two addresses has a checksum that makes the sum of its
/// octets, of those of the addresses, of the protocol 6 and of its length a
/// multiple of 65535.
proof fn lemma_checksummed_probe(src_ip: Seq<u8>, dst_ip: Seq<u8>)
    ensures
        ({
            let segment = syn::checksummed_syn(src_ip, dst_ip, syn::probe());
            &&& segment.len() == 28
            &&& has_probe(segment, 0)
            &&& (weighted_sum(src_ip) + weighted_sum(dst_ip) + 6 + 28 + weighted_sum(segment))
                % 0xffff == 0
        }),
{
    let zeroed = syn::syn_segment(syn::probe(), 0);
    let checksum = syn::tcp_checksum(src_ip, dst_ip, zeroed);
    lemma_probe(0);
    lemma_probe(checksum);
    law_word_sum(src_ip);
    law_word_sum(dst_ip);
    law_word_sum(zeroed);
    law_checksum_cancels(
        weighted_sum(src_ip) + weighted_sum(dst_ip) + 6 + 28 + weighted_sum(zeroed),
    );
}

/// What a part of a frame holds, the frame holds in its place.
proof fn lemma_lift(frame: Seq<u8>, at: int, part: Seq<u8>, inner_at: int, inner: Seq<u8>)
    requires
        0 <= at,
        at + part.len() <= frame.len(),
        part == frame.subrange(at, at + part.len()),
        0 <= inner_at,
        inner_at + inner.len() <= part.len(),
        holds(part, inner_at, inner),
    ensures
        holds(frame, at + inner_at, inner),
{
    assert forall|k: int| 0 <= k < inner.len() implies frame[at + inner_at + k]
        == #[trigger] inner[k] by {
        assert(part[inner_at + k] == inner[k]);
    }
}

proof fn lemma_ethernet_header(src_mac: Seq<u8>, dst_mac: Seq<u8>, ethertype: u16)
    requires
        src_mac.len() == 6,
        dst_mac.len() == 6,
    ensures
        ({
            let header = syn::ethernet_header(src_mac, dst_mac, ethertype);
            &&& header.len() == 14
            &&& holds(header, 0, dst_mac)
            &&& holds(header, 6, src_mac)
            &&& header[12] == ethertype / 0x100
            &&& header[13] == ethertype % 0x100
        }),
{
}

/// An Ethernet header, an IP header and a segment in a row make a frame that holds
/// each in its place.
proof fn lemma_frame(ethernet: Seq<u8>, header: Seq<u8>, segment: Seq<u8>)
    requires
        ethernet.len() == 14,
        segment.len() == 28,
        has_probe(segment, 0),
    ensures
        ({
            let frame = ethernet + header + segment;
            let end = 14 + header.len() as int;
            &&& frame.subrange(0, 14) == ethernet
            &&& frame.subrange(14, end) == header
            &&& frame.subrange(end, end + 28) == segment
            &&& frame[12] == ethernet[12] && frame[13] == ethernet[13]
            &&& has_probe(frame, end)
        }),
{
    let frame = ethernet + header + segment;
    let end = 14 + header.len() as int;
    assert(frame.subrange(0, 14) =~= ethernet);
    assert(frame.subrange(14, end) =~= header);
    assert(frame.subrange(end, end + 28) =~= segment);
    lemma_lift(frame, end, segment, 0, before_checksum());
    lemma_lift(frame, end, segment, 18, after_checksum());
}

/// The frame with a SYN segment in an IPv4 packet, octet by octet. It has 62: the
/// Ethernet header, an IPv4 header of twenty octets for a packet of 48 that is
/// not to be fragmented, with the hop limit 64 and the protocol 6, and the
/// segment. Both checksums cancel what they cover.
pub proof fn law_ipv4_syn(
    src_mac: EthernetAddress,
    dst_mac: EthernetAddress,
    src_ip: Ipv4Address,
    dst_ip: Ipv4Address,
)
    ensures
        ({
            let frame = syn::ipv4_syn(src_mac, dst_mac, src_ip, dst_ip);
            &&& frame.len() == 62
            &&& has_macs(frame, src_mac, dst_mac)
            &&& has_ipv4(frame, src_ip, dst_ip)
            &&& holds(frame, 14, seq![0x45, 0, 0, 48, 0, 0, 0x40, 0, 64, 6])
            &&& has_probe(frame, 34)
            &&& weighted_sum(frame.subrange(14, 34)) % 0xffff == 0
            &&& (weighted_sum(src_ip.octets@) + weighted_sum(dst_ip.octets@) + 6 + 28
                + weighted_sum(frame.subrange(34, 62))) % 0xffff == 0
        }),
{
    let frame = syn::ipv4_syn(src_mac, dst_mac, src_ip, dst_ip);
    let ethernet = syn::ethernet_header(src_mac.octets@, dst_mac.octets@, 0x0800);
    let header = syn::checksummed_ipv4_header(src_ip.octets@, dst_ip.octets@, 6, 28, 64);
    let segment = syn::checksummed_syn(src_ip.octets@, dst_ip.octets@, syn::probe());
    lemma_checksummed_probe(src_ip.octets@, dst_ip.octets@);
    lemma_ipv4_header(src_ip.octets@, dst_ip.octets@);
    lemma_ethernet_header(src_mac.octets@, dst_mac.octets@, 0x0800);
    lemma_frame(ethernet, header, segment);
    assert(frame == ethernet + header + segment);
    lemma_lift(frame, 0, ethernet, 0, dst_mac.octets@);
    lemma_lift(frame, 0, ethernet, 6, src_mac.octets@);
    lemma_lift(frame, 14, header, 0, seq![0x45, 0, 0, 48, 0, 0, 0x40, 0, 64, 6]);
    lemma_lift(frame, 14, header, 12, src_ip.octets@);
    lemma_lift(frame, 14, header, 16, dst_ip.octets@);
}

proof fn lemma_ipv4_header(src_ip: Seq<u8>, dst_ip: Seq<u8>)
    requires
        src_ip.len() == 4,
        dst_ip.len() == 4,
    ensures
        ({
            let header = syn::checksummed_ipv4_header(src_ip, dst_ip, 6, 28, 64);
            &&& header.len() == 20
            &&& holds(header, 0, seq![0x45, 0, 0, 48, 0, 0, 0x40, 0, 64, 6])
            &&& holds(header, 12, src_ip)
            &&& holds(header, 16, dst_ip)
            &&& weighted_sum(header) % 0xffff == 0
        }),
{
    let zeroed = syn::ipv4_header(src_ip, dst_ip, 6, 28, 64, 0);
    let checksum = syn::internet_checksum(syn::word_sum(zeroed));
    let header = syn::ipv4_header(src_ip, dst_ip, 6, 28, 64, checksum);
    lemma_ipv4_header_sum(src_ip, dst_ip, 0);
    lemma_ipv4_header_sum(src_ip, dst_ip, checksum);
    law_word_sum(zeroed);
    law_checksum_cancels(weighted_sum(zeroed));
}

proof fn lemma_ipv4_header_sum(src_ip: Seq<u8>, dst_ip: Seq<u8>, checksum: u16)
    ensures
        ({
            let header = syn::ipv4_header(src_ip, dst_ip, 6, 28, 64, checksum);
            let first = seq![0x45u8, 0, 0, 48, 0, 0, 0x40, 0, 64, 6];
            &&& header == first + address::be_bytes(checksum) + src_ip + dst_ip
            &&& weighted_sum(header) == weighted_sum(first) + checksum + weighted_sum(
                src_ip + dst_ip,
            )
            &&& weighted_sum(first) > 0
        }),
{
    let header = syn::ipv4_header(src_ip, dst_ip, 6, 28, 64, checksum);
    let first = seq![0x45u8, 0, 0, 48, 0, 0, 0x40, 0, 64, 6];
    let sum = address::be_bytes(checksum);
    assert(header =~= first + sum + src_ip + dst_ip);
    assert(header =~= first + sum + (src_ip + dst_ip));
    lemma_weighted_sum_concat(first + sum, src_ip + dst_ip);
    lemma_weighted_sum_concat(first, sum);
    assert(sum =~= seq![sum[0], sum[1]]);
    lemma_weighted_sum_pair(sum[0], sum[1]);
    let rest = seq![0u8, 48, 0, 0, 0x40, 0, 64, 6];
    assert(first =~= seq![0x45u8, 0] + rest);
    lemma_weighted_sum_concat(seq![0x45u8, 0], rest);
    lemma_weighted_sum_pair(0x45, 0);
}

proof fn lemma_ipv6_header(src_ip: Seq<u8>, dst_ip: Seq<u8>)
    requires
        src_ip.len() == 16,
        dst_ip.len() == 16,
    ensures
        ({
            let header = syn::ipv6_header(src_ip, dst_ip, 6, 28, 64);
            &&& header.len() == 40
            &&& holds(header, 0, seq![0x60, 0, 0, 0, 0, 28, 6, 64])
            &&& holds(header, 8, src_ip)
            &&& holds(header, 24, dst_ip)
        }),
{
}

/// The frame with a SYN segment in an IPv6 packet, octet by octet. It has 82: the
/// Ethernet header, an IPv6 header of forty octets for 28 more, with the protocol
/// 6 and the hop limit 64, and the segment, whose checksum cancels what it covers.
pub proof fn law_ipv6_syn(
    src_mac: EthernetAddress,
    dst_mac: EthernetAddress,
    src_ip: Ipv6Address,
    dst_ip: Ipv6Address,
)
    ensures
        ({
            let frame = syn::ipv6_syn(src_mac, dst_mac, src_ip, dst_ip);
            &&& frame.len() == 82
            &&& has_macs(frame, src_mac, dst_mac)
            &&& has_ipv6(frame, src_ip, dst_ip)
            &&& holds(frame, 14, seq![0x60, 0, 0, 0, 0, 28, 6, 64])
            &&& has_probe(frame, 54)
            &&& (weighted_sum(src_ip.octets@) + weighted_sum(dst_ip.octets@) + 6 + 28
                + weighted_sum(frame.subrange(54, 82))) % 0xffff == 0
        }),
{
    let frame = syn::ipv6_syn(src_mac, dst_mac, src_ip, dst_ip);
    let ethernet = syn::ethernet_header(src_mac.octets@, dst_mac.octets@, 0x86dd);
    let header = syn::ipv6_header(src_ip.octets@, dst_ip.octets@, 6, 28, 64);
    let segment = syn::checksummed_syn(src_ip.octets@, dst_ip.octets@, syn::probe());
    lemma_checksummed_probe(src_ip.octets@, dst_ip.octets@);
    lemma_ethernet_header(src_mac.octets@, dst_mac.octets@, 0x86dd);
    lemma_ipv6_header(src_ip.octets@, dst_ip.octets@);
    lemma_frame(ethernet, header, segment);
    assert(frame == ethernet + header + segment);
    lemma_lift(frame, 0, ethernet, 0, dst_mac.octets@);
    lemma_lift(frame, 0, ethernet, 6, src_mac.octets@);
    lemma_lift(frame, 14, header, 0, seq![0x60, 0, 0, 0, 0, 28, 6, 64]);
    lemma_lift(frame, 14, header, 8, src_ip.octets@);
    lemma_lift(frame, 14, header, 24, dst_ip.octets@);
}

/// A frame that is built for a guest is told to have come back, where it is the
/// one that was received.
pub proof fn law_built_frame_is_recognised(
    received: Seq<ReceivedPacket>,
    src_mac: EthernetAddress,
    dst_mac: EthernetAddress,
    src_ip: Ipv4Address,
    dst_ip: Ipv4Address,
    src_ip6: Ipv6Address,
    dst_ip6: Ipv6Address,
)
    requires
        received.len() == 1,
        received[0].ipv4_checksum,
    ensures
        received[0].data@ == syn::ipv4_syn(src_mac, dst_mac, src_ip, dst_ip) ==> {
            &&& loopback::ipv4_came_back(received, src_mac, dst_mac, src_ip, dst_ip)
            &&& !loopback::none_between_ipv4(received, src_ip, dst_ip)
        },
        received[0].data@ == syn::ipv6_syn(src_mac, dst_mac, src_ip6, dst_ip6) ==> {
            &&& loopback::ipv6_came_back(received, src_mac, dst_mac, src_ip6, dst_ip6)
            &&& !loopback::none_between_ipv6(received, src_ip6, dst_ip6)
        },
{
    law_ipv4_syn(src_mac, dst_mac, src_ip, dst_ip);
    law_ipv6_syn(src_mac, dst_mac, src_ip6, dst_ip6);
    law_ipv4_looped_back(received, src_mac, dst_mac, src_ip, dst_ip);
    law_ipv6_looped_back(received, src_mac, dst_mac, src_ip6, dst_ip6);
}

/// Writing octets over others puts them in their place, and changes nothing
/// else.
pub proof fn law_overwrites(data: Seq<u8>, at: int, part: Seq<u8>)
    requires
        0 <= at,
        at + part.len() <= data.len(),
    ensures
        ({
            let after = syn::overwritten(data, at, part);
            &&& after.len() == data.len()
            &&& holds(after, at, part)
            &&& forall|k: int|
                0 <= k < data.len() && !(at <= k < at + part.len()) ==> #[trigger] after[k]
                    == data[k]
        }),
{
}

} // verus!
