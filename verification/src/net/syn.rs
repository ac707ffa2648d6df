//! TCP SYN frames, as a guest sends them to open a connection.

use crate::net::address;
use crate::net::address::{EthernetAddress, Ipv4Address, Ipv6Address};
use crate::net::loopback;
use smoltcp::phy::ChecksumCapabilities;
use smoltcp::wire;
use smoltcp::wire::{EthernetFrame, TcpControl, TcpPacket, TcpRepr, TcpSeqNumber};
use vstd::prelude::*;

verus! {

/// The length of an Ethernet header.
pub const ETHERNET_HEADER_LEN: usize = 14;

/// The length of an IPv4 header without options.
pub const IPV4_HEADER_LEN: usize = 20;

/// The length of an IPv6 header.
pub const IPV6_HEADER_LEN: usize = 40;

/// The Ethernet protocol number of IPv4.
pub const ETHERTYPE_IPV4: u16 = 0x0800;

/// The Ethernet protocol number of IPv6.
pub const ETHERTYPE_IPV6: u16 = 0x86dd;

/// The IP protocol number of TCP.
pub const PROTOCOL_TCP: u8 = 6;

/// How many more hops a frame may take.
pub const HOP_LIMIT: u8 = 64;

/// What a SYN segment says.
#[derive(Debug, Clone, Copy, PartialEq, Eq)]
pub struct TcpSyn {
    pub src_port: u16,
    pub dst_port: u16,
    pub seq_number: i32,
    pub window_len: u16,
    pub window_scale: Option<u8>,
    pub max_seg_size: Option<u16>,
}

/// `data` with `part` in place of as many octets at `at`.
pub open spec fn overwritten(data: Seq<u8>, at: int, part: Seq<u8>) -> Seq<u8> {
    data.subrange(0, at) + part + data.subrange(at + part.len(), data.len() as int)
}

/// The length of the header of a SYN segment: twenty octets, four for a maximum
/// segment size and three for a window scale, in multiples of four.
pub open spec fn syn_len(window_scale: Option<u8>, max_seg_size: Option<u16>) -> int {
    let len = 20 + (if max_seg_size is Some {
        4int
    } else {
        0
    }) + (if window_scale is Some {
        3int
    } else {
        0
    });
    (len + 3) / 4 * 4
}

/// The four octets of a number in network byte order.
pub open spec fn be_bytes_32(v: u32) -> Seq<u8> {
    address::be_bytes((v / 0x1_0000) as u16) + address::be_bytes((v % 0x1_0000) as u16)
}

/// The sum of the 16-bit numbers that octets hold in network byte order. An odd
/// octet at the end counts as the first of two, with a zero after it.
pub open spec fn word_sum(data: Seq<u8>) -> nat
    decreases data.len(),
{
    if data.len() == 0 {
        0
    } else if data.len() == 1 {
        data[0] as nat * 0x100
    } else {
        data[0] as nat * 0x100 + data[1] as nat + word_sum(data.skip(2))
    }
}

/// The Internet checksum of octets with the given sum: the complement of the
/// sum with its carries added in, which is 0 only where the sum is 0.
pub open spec fn internet_checksum(sum: nat) -> u16 {
    if sum == 0 {
        0xffff
    } else {
        (0xffff - ((sum - 1) % 0xffff + 1)) as u16
    }
}

/// The checksum of a TCP segment between the given IP addresses, whose checksum
/// field is zero. It covers the addresses, the protocol and the length as well.
pub open spec fn tcp_checksum(src_ip: Seq<u8>, dst_ip: Seq<u8>, segment: Seq<u8>) -> u16 {
    internet_checksum(
        word_sum(src_ip) + word_sum(dst_ip) + PROTOCOL_TCP as nat + segment.len() + word_sum(
            segment,
        ),
    )
}

/// An IPv4 header without options, of a packet that is not to be fragmented,
/// with the given checksum.
pub open spec fn ipv4_header(
    src_ip: Seq<u8>,
    dst_ip: Seq<u8>,
    next_header: u8,
    payload_len: nat,
    hop_limit: u8,
    checksum: u16,
) -> Seq<u8> {
    seq![0x45u8, 0] + address::be_bytes((20 + payload_len) as u16) + seq![
        0u8,
        0,
        0x40,
        0,
        hop_limit,
        next_header,
    ] + address::be_bytes(checksum) + src_ip + dst_ip
}

/// An IPv4 header with its checksum.
pub open spec fn checksummed_ipv4_header(
    src_ip: Seq<u8>,
    dst_ip: Seq<u8>,
    next_header: u8,
    payload_len: nat,
    hop_limit: u8,
) -> Seq<u8> {
    ipv4_header(
        src_ip,
        dst_ip,
        next_header,
        payload_len,
        hop_limit,
        internet_checksum(
            word_sum(ipv4_header(src_ip, dst_ip, next_header, payload_len, hop_limit, 0)),
        ),
    )
}

/// The options of a SYN segment, up to a multiple of four octets.
pub open spec fn syn_options(window_scale: Option<u8>, max_seg_size: Option<u16>) -> Seq<u8> {
    (match max_seg_size {
        Some(size) => seq![2u8, 4] + address::be_bytes(size),
        None => Seq::empty(),
    }) + (match window_scale {
        Some(scale) => seq![3u8, 3, scale, 0],
        None => Seq::empty(),
    })
}

/// A SYN segment with the given checksum.
pub open spec fn syn_segment(syn: TcpSyn, checksum: u16) -> Seq<u8> {
    address::be_bytes(syn.src_port) + address::be_bytes(syn.dst_port) + be_bytes_32(
        syn.seq_number as u32,
    ) + seq![0u8, 0, 0, 0] + seq![
        (syn_len(syn.window_scale, syn.max_seg_size) / 4 * 0x10) as u8,
        0x02,
    ] + address::be_bytes(syn.window_len) + address::be_bytes(checksum) + seq![0u8, 0]
        + syn_options(syn.window_scale, syn.max_seg_size)
}

/// A SYN segment between the given IP addresses, with its checksum.
pub open spec fn checksummed_syn(src_ip: Seq<u8>, dst_ip: Seq<u8>, syn: TcpSyn) -> Seq<u8> {
    syn_segment(syn, tcp_checksum(src_ip, dst_ip, syn_segment(syn, 0)))
}

/// Calls `smoltcp::wire::EthernetFrame::set_src_addr`, which writes the address
/// to octets 6 to 11 of the frame.
#[verifier::external_body]
fn set_src_addr(frame: &mut [u8], addr: [u8; 6])
    requires
        old(frame)@.len() >= 12,
    ensures
        final(frame)@ == overwritten(old(frame)@, 6, addr@),
{
    EthernetFrame::new_unchecked(frame).set_src_addr(
        wire::EthernetAddress(addr),
    )
}

/// Calls `smoltcp::wire::EthernetFrame::set_dst_addr`, which writes the address
/// to octets 0 to 5 of the frame.
#[verifier::external_body]
fn set_dst_addr(frame: &mut [u8], addr: [u8; 6])
    requires
        old(frame)@.len() >= 6,
    ensures
        final(frame)@ == overwritten(old(frame)@, 0, addr@),
{
    EthernetFrame::new_unchecked(frame).set_dst_addr(
        wire::EthernetAddress(addr),
    )
}

/// Calls `smoltcp::wire::EthernetFrame::set_ethertype`, which writes the
/// protocol number, in network byte order, to octets 12 and 13 of the frame.
#[verifier::external_body]
fn set_ethertype(frame: &mut [u8], ethertype: u16)
    requires
        old(frame)@.len() >= 14,
    ensures
        final(frame)@ == overwritten(old(frame)@, 12, address::be_bytes(ethertype)),
{
    EthernetFrame::new_unchecked(frame).set_ethertype(
        wire::EthernetProtocol::from(ethertype),
    )
}

/// Calls `smoltcp::wire::Ipv4Repr::emit` on what begins at `at`, with checksums
/// on. It writes a header of twenty octets: version 4, an empty type of service,
/// the length of the packet in network byte order, no identification, the flag
/// against fragmentation, the hop limit, the protocol, the Internet checksum of
/// the header, and the addresses.
#[verifier::external_body]
fn emit_ipv4(
    frame: &mut [u8],
    at: usize,
    src_ip: [u8; 4],
    dst_ip: [u8; 4],
    next_header: u8,
    payload_len: usize,
    hop_limit: u8,
)
    requires
        at + IPV4_HEADER_LEN <= old(frame)@.len(),
        IPV4_HEADER_LEN + payload_len <= 0xffff,
    ensures
        final(frame)@ == overwritten(
            old(frame)@,
            at as int,
            checksummed_ipv4_header(
                src_ip@,
                dst_ip@,
                next_header,
                payload_len as nat,
                hop_limit,
            ),
        ),
{
    wire::Ipv4Repr {
        src_addr: wire::Ipv4Address::from(src_ip),
        dst_addr: wire::Ipv4Address::from(dst_ip),
        next_header: wire::IpProtocol::from(next_header),
        payload_len,
        hop_limit,
    }.emit(
        &mut wire::Ipv4Packet::new_unchecked(&mut frame[at..]),
        &ChecksumCapabilities::default(),
    )
}

/// Calls `smoltcp::wire::Ipv4Packet::total_len` on what begins at `at`. It
/// returns the number in octets 2 and 3 of the packet, in network byte order.
#[verifier::external_body]
fn ipv4_total_len(frame: &[u8], at: usize) -> (len: u16)
    requires
        at + 4 <= frame@.len(),
    ensures
        address::be_bytes(len) == frame@.subrange(at + 2, at + 4),
{
    wire::Ipv4Packet::new_unchecked(&frame[at..]).total_len()
}

/// Calls `smoltcp::wire::Ipv6Repr::emit` on what begins at `at`. It writes
/// version 6, an empty traffic class and flow label, the payload length in
/// network byte order, the protocol, the hop limit and the addresses.
#[verifier::external_body]
fn emit_ipv6(
    frame: &mut [u8],
    at: usize,
    src_ip: [u8; 16],
    dst_ip: [u8; 16],
    next_header: u8,
    payload_len: usize,
    hop_limit: u8,
)
    requires
        at + IPV6_HEADER_LEN <= old(frame)@.len(),
        payload_len <= 0xffff,
    ensures
        final(frame)@ == overwritten(
            old(frame)@,
            at as int,
            ipv6_header(src_ip@, dst_ip@, next_header, payload_len as u16, hop_limit),
        ),
{
    wire::Ipv6Repr {
        src_addr: wire::Ipv6Address::from(src_ip),
        dst_addr: wire::Ipv6Address::from(dst_ip),
        next_header: wire::IpProtocol::from(next_header),
        payload_len,
        hop_limit,
    }.emit(&mut wire::Ipv6Packet::new_unchecked(&mut frame[at..]))
}

/// An IPv6 header.
pub open spec fn ipv6_header(
    src_ip: Seq<u8>,
    dst_ip: Seq<u8>,
    next_header: u8,
    payload_len: u16,
    hop_limit: u8,
) -> Seq<u8> {
    seq![0x60u8, 0, 0, 0] + address::be_bytes(payload_len) + seq![next_header, hop_limit] + src_ip
        + dst_ip
}

/// An IP address of either family.
#[derive(Debug, Clone, Copy, PartialEq, Eq)]
pub enum IpAddress {
    V4(Ipv4Address),
    V6(Ipv6Address),
}

impl IpAddress {
    /// The octets of the address.
    pub open spec fn octets(&self) -> Seq<u8> {
        match *self {
            IpAddress::V4(ip) => ip.octets@,
            IpAddress::V6(ip) => ip.octets@,
        }
    }
}

/// Calls `smoltcp::wire::TcpRepr::header_len` on a SYN segment without further
/// options than those of `syn`.
#[verifier::external_body]
fn tcp_header_len(syn: &TcpSyn) -> (len: usize)
    ensures
        len == syn_len(syn.window_scale, syn.max_seg_size),
{
    TcpRepr {
        src_port: syn.src_port, dst_port: syn.dst_port, control: TcpControl::Syn,
        seq_number: TcpSeqNumber(syn.seq_number), ack_number: None,
        window_len: syn.window_len, window_scale: syn.window_scale,
        max_seg_size: syn.max_seg_size, sack_permitted: false,
        sack_ranges: [None, None, None], timestamp: None, payload: &[],
    }.header_len()
}

/// Calls `smoltcp::wire::TcpRepr::emit` on the `len` octets at `at`, with
/// checksums on, for a SYN segment without further options than those of `syn`.
/// Where the octets are as many as its header has, it writes all of them: the
/// ports, the sequence number, no acknowledgement, the length of the header, the
/// SYN flag, the window, the Internet checksum of the segment with the addresses,
/// no urgent pointer, and the options.
#[verifier::external_body]
fn emit_tcp(frame: &mut [u8], at: usize, len: usize, src: IpAddress, dst: IpAddress, syn: &TcpSyn)
    requires
        len == syn_len(syn.window_scale, syn.max_seg_size),
        at + len <= old(frame)@.len(),
        src is V4 <==> dst is V4,
    ensures
        final(frame)@ == overwritten(
            old(frame)@,
            at as int,
            checksummed_syn(src.octets(), dst.octets(), *syn),
        ),
{
    let ip = |ip: IpAddress| match ip {
        IpAddress::V4(ip) => wire::IpAddress::Ipv4(wire::Ipv4Address::from(ip.octets)),
        IpAddress::V6(ip) => wire::IpAddress::Ipv6(wire::Ipv6Address::from(ip.octets)),
    };
    let mut packet = TcpPacket::new_unchecked(&mut frame[at..at + len]);
    TcpRepr {
        src_port: syn.src_port, dst_port: syn.dst_port, control: TcpControl::Syn,
        seq_number: TcpSeqNumber(syn.seq_number), ack_number: None,
        window_len: syn.window_len, window_scale: syn.window_scale,
        max_seg_size: syn.max_seg_size, sack_permitted: false,
        sack_ranges: [None, None, None], timestamp: None, payload: &[],
    }.emit(&mut packet, &ip(src), &ip(dst), &ChecksumCapabilities::default())
}

/// Calls `smoltcp::wire::TcpPacket::fill_checksum` on the `len` octets at `at`.
/// It writes the Internet checksum of the segment with the addresses, in network
/// byte order, to octets 16 and 17 of them, which count as zero for it.
#[verifier::external_body]
fn fill_tcp_checksum(frame: &mut [u8], at: usize, len: usize, src: IpAddress, dst: IpAddress)
    requires
        18 <= len <= 0xffff,
        at + len <= old(frame)@.len(),
        src is V4 <==> dst is V4,
    ensures
        final(frame)@ == overwritten(
            old(frame)@,
            at + 16,
            address::be_bytes(
                tcp_checksum(
                    src.octets(),
                    dst.octets(),
                    overwritten(old(frame)@.subrange(at as int, at + len), 16, seq![0u8, 0]),
                ),
            ),
        ),
{
    let ip = |ip: IpAddress| match ip {
        IpAddress::V4(ip) => wire::IpAddress::Ipv4(wire::Ipv4Address::from(ip.octets)),
        IpAddress::V6(ip) => wire::IpAddress::Ipv6(wire::Ipv6Address::from(ip.octets)),
    };
    TcpPacket::new_unchecked(&mut frame[at..at + len]).fill_checksum(&ip(src), &ip(dst))
}

/// The SYN segment of the frames: from port 44444 to port 80.
pub open spec fn probe() -> TcpSyn {
    TcpSyn {
        src_port: 44444,
        dst_port: 80,
        seq_number: 1000,
        window_len: 64240,
        window_scale: Some(7),
        max_seg_size: Some(1460),
    }
}

fn make_probe() -> (syn: TcpSyn)
    ensures
        syn == probe(),
{
    TcpSyn {
        src_port: 44444,
        dst_port: 80,
        seq_number: 1000,
        window_len: 64240,
        window_scale: Some(7),
        max_seg_size: Some(1460),
    }
}

/// An Ethernet header.
pub open spec fn ethernet_header(src_mac: Seq<u8>, dst_mac: Seq<u8>, ethertype: u16) -> Seq<u8> {
    dst_mac + src_mac + address::be_bytes(ethertype)
}

/// A frame with a SYN segment in an IPv4 packet.
pub open spec fn ipv4_syn(
    src_mac: EthernetAddress,
    dst_mac: EthernetAddress,
    src_ip: Ipv4Address,
    dst_ip: Ipv4Address,
) -> Seq<u8> {
    ethernet_header(src_mac.octets@, dst_mac.octets@, ETHERTYPE_IPV4)
        + checksummed_ipv4_header(
        src_ip.octets@,
        dst_ip.octets@,
        PROTOCOL_TCP,
        28,
        HOP_LIMIT,
    ) + checksummed_syn(src_ip.octets@, dst_ip.octets@, probe())
}

/// A frame with a SYN segment in an IPv6 packet.
pub open spec fn ipv6_syn(
    src_mac: EthernetAddress,
    dst_mac: EthernetAddress,
    src_ip: Ipv6Address,
    dst_ip: Ipv6Address,
) -> Seq<u8> {
    ethernet_header(src_mac.octets@, dst_mac.octets@, ETHERTYPE_IPV6) + ipv6_header(
        src_ip.octets@,
        dst_ip.octets@,
        PROTOCOL_TCP,
        28,
        HOP_LIMIT,
    ) + checksummed_syn(src_ip.octets@, dst_ip.octets@, probe())
}

fn write_ethernet_header(
    buf: &mut [u8],
    src_mac: EthernetAddress,
    dst_mac: EthernetAddress,
    ethertype: u16,
)
    requires
        old(buf)@.len() >= ETHERNET_HEADER_LEN,
    ensures
        final(buf)@ == overwritten(
            old(buf)@,
            0,
            ethernet_header(src_mac.octets@, dst_mac.octets@, ethertype),
        ),
{
    set_src_addr(buf, src_mac.octets);
    set_dst_addr(buf, dst_mac.octets);
    set_ethertype(buf, ethertype);
    assert(buf@ =~= overwritten(
        old(buf)@,
        0,
        ethernet_header(src_mac.octets@, dst_mac.octets@, ethertype),
    ));
}

fn write_probe(buf: &mut [u8], at: usize, len: usize, src: IpAddress, dst: IpAddress, syn: &TcpSyn)
    requires
        *syn == probe(),
        len == 28,
        at + len <= old(buf)@.len(),
        src is V4 <==> dst is V4,
    ensures
        final(buf)@ == overwritten(
            old(buf)@,
            at as int,
            checksummed_syn(src.octets(), dst.octets(), probe()),
        ),
{
    emit_tcp(buf, at, len, src, dst, syn);
    let ghost emitted = buf@;
    let ghost zeroed = overwritten(emitted.subrange(at as int, at + len), 16, seq![0u8, 0]);
    assert(syn_segment(*syn, 0).len() == 28);
    assert(zeroed =~= syn_segment(*syn, 0));
    fill_tcp_checksum(buf, at, len, src, dst);
    assert(buf@ =~= overwritten(
        old(buf)@,
        at as int,
        checksummed_syn(src.octets(), dst.octets(), probe()),
    ));
}

/// Builds a minimal TCP SYN packet inside an Ethernet/IPv4 frame at the
/// beginning of `buf`; returns the length of the frame.
pub fn build_ipv4_syn(
    buf: &mut [u8],
    src_mac: EthernetAddress,
    dst_mac: EthernetAddress,
    src_ip: Ipv4Address,
    dst_ip: Ipv4Address,
) -> (len: usize)
    requires
        old(buf)@.len() >= 62,
    ensures
        len == 62,
        ipv4_syn(src_mac, dst_mac, src_ip, dst_ip).len() == 62,
        final(buf)@ == overwritten(old(buf)@, 0, ipv4_syn(src_mac, dst_mac, src_ip, dst_ip)),
        loopback::between_macs(final(buf)@, src_mac, dst_mac),
        loopback::between_ipv4(final(buf)@, src_ip, dst_ip),
{
    let tcp = make_probe();
    let segment_len: usize = tcp_header_len(&tcp);
    write_ethernet_header(buf, src_mac, dst_mac, ETHERTYPE_IPV4);
    emit_ipv4(
        buf,
        ETHERNET_HEADER_LEN,
        src_ip.octets,
        dst_ip.octets,
        PROTOCOL_TCP,
        segment_len,
        HOP_LIMIT,
    );
    assert(buf@.len() == old(buf)@.len());
    let at: usize = ETHERNET_HEADER_LEN + IPV4_HEADER_LEN;
    write_probe(buf, at, segment_len, IpAddress::V4(src_ip), IpAddress::V4(dst_ip), &tcp);
    assert(buf@.subrange(16, 18) =~= address::be_bytes(48));
    let total_len: u16 = ipv4_total_len(buf, ETHERNET_HEADER_LEN);
    proof {
        assert(address::be_bytes(total_len)[0] == address::be_bytes(48)[0]);
        assert(address::be_bytes(total_len)[1] == address::be_bytes(48)[1]);
        assert(buf@ =~= overwritten(old(buf)@, 0, ipv4_syn(src_mac, dst_mac, src_ip, dst_ip)));
        assert(buf@.subrange(0, 6) =~= dst_mac.octets@);
        assert(buf@.subrange(6, 12) =~= src_mac.octets@);
        assert(buf@.subrange(12, 14) =~= address::be_bytes(ETHERTYPE_IPV4));
        assert(buf@.subrange(26, 30) =~= src_ip.octets@);
        assert(buf@.subrange(30, 34) =~= dst_ip.octets@);
    }
    ETHERNET_HEADER_LEN + total_len as usize
}

/// Builds a minimal TCP SYN packet inside an Ethernet/IPv6 frame at the
/// beginning of `buf`; returns the length of the frame.
pub fn build_ipv6_syn(
    buf: &mut [u8],
    src_mac: EthernetAddress,
    dst_mac: EthernetAddress,
    src_ip: Ipv6Address,
    dst_ip: Ipv6Address,
) -> (len: usize)
    requires
        old(buf)@.len() >= 82,
    ensures
        len == 82,
        ipv6_syn(src_mac, dst_mac, src_ip, dst_ip).len() == 82,
        final(buf)@ == overwritten(old(buf)@, 0, ipv6_syn(src_mac, dst_mac, src_ip, dst_ip)),
        loopback::between_macs(final(buf)@, src_mac, dst_mac),
        loopback::between_ipv6(final(buf)@, src_ip, dst_ip),
{
    let tcp = make_probe();
    let segment_len: usize = tcp_header_len(&tcp);
    write_ethernet_header(buf, src_mac, dst_mac, ETHERTYPE_IPV6);
    emit_ipv6(
        buf,
        ETHERNET_HEADER_LEN,
        src_ip.octets,
        dst_ip.octets,
        PROTOCOL_TCP,
        segment_len,
        HOP_LIMIT,
    );
    assert(buf@.len() == old(buf)@.len());
    let at: usize = ETHERNET_HEADER_LEN + IPV6_HEADER_LEN;
    write_probe(buf, at, segment_len, IpAddress::V6(src_ip), IpAddress::V6(dst_ip), &tcp);
    proof {
        assert(buf@ =~= overwritten(old(buf)@, 0, ipv6_syn(src_mac, dst_mac, src_ip, dst_ip)));
        assert(buf@.subrange(0, 6) =~= dst_mac.octets@);
        assert(buf@.subrange(6, 12) =~= src_mac.octets@);
        assert(buf@.subrange(12, 14) =~= address::be_bytes(ETHERTYPE_IPV6));
        assert(buf@.subrange(22, 38) =~= src_ip.octets@);
        assert(buf@.subrange(38, 54) =~= dst_ip.octets@);
    }
    at + segment_len
}

} // verus!
