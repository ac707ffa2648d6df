//! Telling whether a frame that the guest sent came back to it.

use crate::net::address;
use crate::net::address::{EthernetAddress, Ipv4Address, Ipv6Address};
use crate::net::syn::{
    ETHERNET_HEADER_LEN, ETHERTYPE_IPV4, ETHERTYPE_IPV6, IPV4_HEADER_LEN, IPV6_HEADER_LEN,
};
use vstd::prelude::*;

verus! {

/// A frame that the guest has received.
#[derive(Debug, PartialEq, Eq)]
pub struct ReceivedPacket {
    pub data: Vec<u8>,
    /// Whether the checksum of its IPv4 header is known to be right.
    pub ipv4_checksum: bool,
}

/// Whether a frame holds an IPv4 packet.
pub open spec fn is_ipv4(frame: Seq<u8>) -> bool {
    frame.subrange(12, 14) == address::be_bytes(ETHERTYPE_IPV4)
}

/// Whether a frame holds an IPv6 packet.
pub open spec fn is_ipv6(frame: Seq<u8>) -> bool {
    frame.subrange(12, 14) == address::be_bytes(ETHERTYPE_IPV6)
}

/// Whether a frame goes from one Ethernet address to the other.
pub open spec fn between_macs(
    frame: Seq<u8>,
    src_mac: EthernetAddress,
    dst_mac: EthernetAddress,
) -> bool {
    frame.subrange(0, 6) == dst_mac.octets@ && frame.subrange(6, 12) == src_mac.octets@
}

/// Whether a frame holds an IPv4 packet from one address to the other.
pub open spec fn between_ipv4(frame: Seq<u8>, src_ip: Ipv4Address, dst_ip: Ipv4Address) -> bool {
    &&& is_ipv4(frame)
    &&& frame.subrange(26, 30) == src_ip.octets@
    &&& frame.subrange(30, 34) == dst_ip.octets@
}

/// Whether a frame holds an IPv6 packet from one address to the other.
pub open spec fn between_ipv6(frame: Seq<u8>, src_ip: Ipv6Address, dst_ip: Ipv6Address) -> bool {
    &&& is_ipv6(frame)
    &&& frame.subrange(22, 38) == src_ip.octets@
    &&& frame.subrange(38, 54) == dst_ip.octets@
}

/// Whether no frame holds an IPv4 packet from one address to the other.
pub open spec fn none_between_ipv4(
    received: Seq<ReceivedPacket>,
    src_ip: Ipv4Address,
    dst_ip: Ipv4Address,
) -> bool {
    forall|i: int|
        0 <= i < received.len() ==> !between_ipv4(#[trigger] received[i].data@, src_ip, dst_ip)
}

/// Whether no frame holds an IPv6 packet from one address to the other.
pub open spec fn none_between_ipv6(
    received: Seq<ReceivedPacket>,
    src_ip: Ipv6Address,
    dst_ip: Ipv6Address,
) -> bool {
    forall|i: int|
        0 <= i < received.len() ==> !between_ipv6(#[trigger] received[i].data@, src_ip, dst_ip)
}

/// Whether a frame is long enough to tell whether it holds an IPv4 packet from
/// `src_ip` to some other address.
pub open spec fn tells_ipv4(frame: Seq<u8>, src_ip: Ipv4Address) -> bool {
    &&& frame.len() >= ETHERNET_HEADER_LEN
    &&& is_ipv4(frame) ==> {
        &&& frame.len() >= 30
        &&& frame.subrange(26, 30) == src_ip.octets@ ==> frame.len() >= 34
    }
}

/// Whether a frame is long enough to tell whether it holds an IPv6 packet from
/// `src_ip` to some other address.
pub open spec fn tells_ipv6(frame: Seq<u8>, src_ip: Ipv6Address) -> bool {
    &&& frame.len() >= ETHERNET_HEADER_LEN
    &&& is_ipv6(frame) ==> {
        &&& frame.len() >= 38
        &&& frame.subrange(22, 38) == src_ip.octets@ ==> frame.len() >= 54
    }
}

/// Whether the octets at `at` are the given ones.
fn holds_at<const N: usize>(data: &Vec<u8>, at: usize, octets: &[u8; N]) -> (holds: bool)
    requires
        at + N <= data@.len(),
    ensures
        holds == (data@.subrange(at as int, at + N) == octets@),
{
    let mut i: usize = 0;
    while i < N
        invariant
            i <= N,
            at + N <= data@.len(),
            forall|k: int| 0 <= k < i ==> data@[at + k] == #[trigger] octets@[k],
        decreases N - i,
    {
        assert(data@.len() == data.len());
        if data[at + i] != octets[i] {
            assert(data@.subrange(at as int, at + N)[i as int] != octets@[i as int]);
            return false;
        }
        i = i + 1;
    }
    assert(data@.subrange(at as int, at + N) =~= octets@);
    true
}

fn has_ethertype(data: &Vec<u8>, ethertype: u16) -> (has: bool)
    requires
        data@.len() >= ETHERNET_HEADER_LEN,
    ensures
        has == (data@.subrange(12, 14) == address::be_bytes(ethertype)),
{
    let octets: [u8; 2] = [(ethertype / 0x100) as u8, (ethertype % 0x100) as u8];
    assert(octets@ =~= address::be_bytes(ethertype));
    holds_at(data, 12, &octets)
}

fn is_between_macs(
    data: &Vec<u8>,
    src_mac: EthernetAddress,
    dst_mac: EthernetAddress,
) -> (is_between: bool)
    requires
        data@.len() >= ETHERNET_HEADER_LEN,
    ensures
        is_between == between_macs(data@, src_mac, dst_mac),
{
    holds_at(data, 0, &dst_mac.octets) && holds_at(data, 6, &src_mac.octets)
}

fn is_between_ipv4(data: &Vec<u8>, src_ip: Ipv4Address, dst_ip: Ipv4Address) -> (is_between: bool)
    requires
        tells_ipv4(data@, src_ip),
    ensures
        is_between == between_ipv4(data@, src_ip, dst_ip),
{
    has_ethertype(data, ETHERTYPE_IPV4) && holds_at(data, 26, &src_ip.octets) && holds_at(
        data,
        30,
        &dst_ip.octets,
    )
}

fn is_between_ipv6(data: &Vec<u8>, src_ip: Ipv6Address, dst_ip: Ipv6Address) -> (is_between: bool)
    requires
        tells_ipv6(data@, src_ip),
    ensures
        is_between == between_ipv6(data@, src_ip, dst_ip),
{
    has_ethertype(data, ETHERTYPE_IPV6) && holds_at(data, 22, &src_ip.octets) && holds_at(
        data,
        38,
        &dst_ip.octets,
    )
}

/// Whether no IPv4 packet from the one address to the other came back. The
/// frames are looked at in order, up to the first that did.
pub fn ipv4_not_looped_back(
    received: &Vec<ReceivedPacket>,
    src_ip: Ipv4Address,
    dst_ip: Ipv4Address,
) -> (none: bool)
    requires
        forall|i: int|
            0 <= i < received@.len() && none_between_ipv4(received@.take(i), src_ip, dst_ip)
                ==> tells_ipv4(#[trigger] received@[i].data@, src_ip),
    ensures
        none == none_between_ipv4(received@, src_ip, dst_ip),
{
    let mut i: usize = 0;
    while i < received.len()
        invariant
            i <= received@.len(),
            forall|k: int|
                0 <= k < received@.len() && none_between_ipv4(received@.take(k), src_ip, dst_ip)
                    ==> tells_ipv4(#[trigger] received@[k].data@, src_ip),
            none_between_ipv4(received@.take(i as int), src_ip, dst_ip),
        decreases received@.len() - i,
    {
        assert(received@[i as int].data@ == received@[i as int].data@);
        if is_between_ipv4(&received[i].data, src_ip, dst_ip) {
            return false;
        }
        assert(received@.take(i + 1) =~= received@.take(i as int).push(received@[i as int]));
        i = i + 1;
    }
    assert(received@.take(i as int) =~= received@);
    true
}

/// Whether no IPv6 packet from the one address to the other came back. The
/// frames are looked at in order, up to the first that did.
pub fn ipv6_not_looped_back(
    received: &Vec<ReceivedPacket>,
    src_ip: Ipv6Address,
    dst_ip: Ipv6Address,
) -> (none: bool)
    requires
        forall|i: int|
            0 <= i < received@.len() && none_between_ipv6(received@.take(i), src_ip, dst_ip)
                ==> tells_ipv6(#[trigger] received@[i].data@, src_ip),
    ensures
        none == none_between_ipv6(received@, src_ip, dst_ip),
{
    let mut i: usize = 0;
    while i < received.len()
        invariant
            i <= received@.len(),
            forall|k: int|
                0 <= k < received@.len() && none_between_ipv6(received@.take(k), src_ip, dst_ip)
                    ==> tells_ipv6(#[trigger] received@[k].data@, src_ip),
            none_between_ipv6(received@.take(i as int), src_ip, dst_ip),
        decreases received@.len() - i,
    {
        assert(received@[i as int].data@ == received@[i as int].data@);
        if is_between_ipv6(&received[i].data, src_ip, dst_ip) {
            return false;
        }
        assert(received@.take(i + 1) =~= received@.take(i as int).push(received@[i as int]));
        i = i + 1;
    }
    assert(received@.take(i as int) =~= received@);
    true
}

/// Whether exactly one packet came back: an IPv4 packet between the given
/// addresses, with a header checksum that is known to be right.
pub open spec fn ipv4_came_back(
    received: Seq<ReceivedPacket>,
    src_mac: EthernetAddress,
    dst_mac: EthernetAddress,
    src_ip: Ipv4Address,
    dst_ip: Ipv4Address,
) -> bool {
    &&& received.len() == 1
    &&& received[0].ipv4_checksum
    &&& received[0].data@.len() >= ETHERNET_HEADER_LEN + IPV4_HEADER_LEN
    &&& between_macs(received[0].data@, src_mac, dst_mac)
    &&& between_ipv4(received[0].data@, src_ip, dst_ip)
}

/// Whether exactly one packet came back: an IPv4 packet between the given
/// addresses, with a header checksum that is known to be right.
pub fn ipv4_looped_back(
    received: &Vec<ReceivedPacket>,
    src_mac: EthernetAddress,
    dst_mac: EthernetAddress,
    src_ip: Ipv4Address,
    dst_ip: Ipv4Address,
) -> (looped_back: bool)
    ensures
        looped_back == ipv4_came_back(received@, src_mac, dst_mac, src_ip, dst_ip),
{
    if received.len() != 1 || received[0].data.len() < ETHERNET_HEADER_LEN + IPV4_HEADER_LEN {
        return false;
    }
    let data = &received[0].data;
    received[0].ipv4_checksum && is_between_macs(data, src_mac, dst_mac) && is_between_ipv4(
        data,
        src_ip,
        dst_ip,
    )
}

/// Whether exactly one packet came back: an IPv6 packet between the given
/// addresses.
pub open spec fn ipv6_came_back(
    received: Seq<ReceivedPacket>,
    src_mac: EthernetAddress,
    dst_mac: EthernetAddress,
    src_ip: Ipv6Address,
    dst_ip: Ipv6Address,
) -> bool {
    &&& received.len() == 1
    &&& received[0].data@.len() >= ETHERNET_HEADER_LEN + IPV6_HEADER_LEN
    &&& between_macs(received[0].data@, src_mac, dst_mac)
    &&& between_ipv6(received[0].data@, src_ip, dst_ip)
}

/// Whether exactly one packet came back: an IPv6 packet between the given
/// addresses.
pub fn ipv6_looped_back(
    received: &Vec<ReceivedPacket>,
    src_mac: EthernetAddress,
    dst_mac: EthernetAddress,
    src_ip: Ipv6Address,
    dst_ip: Ipv6Address,
) -> (looped_back: bool)
    ensures
        looped_back == ipv6_came_back(received@, src_mac, dst_mac, src_ip, dst_ip),
{
    if received.len() != 1 || received[0].data.len() < ETHERNET_HEADER_LEN + IPV6_HEADER_LEN {
        return false;
    }
    let data = &received[0].data;
    is_between_macs(data, src_mac, dst_mac) && is_between_ipv6(data, src_ip, dst_ip)
}

} // verus!
