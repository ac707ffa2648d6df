use smoltcp::phy::ChecksumCapabilities;
use smoltcp::wire;
use vm_devices::net::address::{EthernetAddress, Ipv4Address, Ipv6Address};
use vm_devices::net::loopback::{
    ipv4_looped_back, ipv4_not_looped_back, ipv6_looped_back, ipv6_not_looped_back, ReceivedPacket,
};
use vm_devices::net::syn::{build_ipv4_syn, build_ipv6_syn};

const GUEST: EthernetAddress = EthernetAddress {
    octets: [0x00, 0x15, 0x5d, 0x12, 0x12, 0x12],
};
const GATEWAY: EthernetAddress = EthernetAddress {
    octets: [0x52, 0x55, 10, 0, 0, 1],
};

fn received(data: &[u8], ipv4_checksum: bool) -> ReceivedPacket {
    ReceivedPacket {
        data: data.to_vec(),
        ipv4_checksum,
    }
}

#[test]
fn ipv4_syn_parses() {
    let src = Ipv4Address::new(10, 0, 0, 2);
    let dst = Ipv4Address::new(127, 0, 0, 1);
    let mut buf = vec![0xa5u8; 1514];
    let len = build_ipv4_syn(&mut buf, GUEST, GATEWAY, src, dst);
    assert_eq!(len, 62);
    assert!(buf[62..].iter().all(|octet| *octet == 0xa5));

    let eth = wire::EthernetFrame::new_checked(&buf[..len]).unwrap();
    assert_eq!(eth.src_addr(), wire::EthernetAddress(GUEST.octets));
    assert_eq!(eth.dst_addr(), wire::EthernetAddress(GATEWAY.octets));
    assert_eq!(eth.ethertype(), wire::EthernetProtocol::Ipv4);

    let ipv4 = wire::Ipv4Packet::new_checked(eth.payload()).unwrap();
    assert!(ipv4.verify_checksum());
    assert_eq!(ipv4.src_addr(), wire::Ipv4Address::new(10, 0, 0, 2));
    assert_eq!(ipv4.dst_addr(), wire::Ipv4Address::new(127, 0, 0, 1));
    assert_eq!(ipv4.total_len(), 48);
    assert_eq!(ipv4.hop_limit(), 64);
    assert_eq!(ipv4.next_header(), wire::IpProtocol::Tcp);

    let tcp = wire::TcpPacket::new_checked(ipv4.payload()).unwrap();
    let (src, dst) = (ipv4.src_addr().into(), ipv4.dst_addr().into());
    let repr = wire::TcpRepr::parse(&tcp, &src, &dst, &ChecksumCapabilities::default()).unwrap();
    assert_eq!(repr.src_port, 44444);
    assert_eq!(repr.dst_port, 80);
    assert_eq!(repr.control, wire::TcpControl::Syn);
    assert_eq!(repr.seq_number, wire::TcpSeqNumber(1000));
    assert_eq!(repr.ack_number, None);
    assert_eq!(repr.window_len, 64240);
    assert_eq!(repr.window_scale, Some(7));
    assert_eq!(repr.max_seg_size, Some(1460));
    assert!(!repr.sack_permitted);
    assert_eq!(repr.header_len(), 28);
}

#[test]
fn ipv4_syn_octets() {
    let mut buf = vec![0u8; 62];
    build_ipv4_syn(
        &mut buf,
        GUEST,
        GATEWAY,
        Ipv4Address::new(10, 0, 0, 2),
        Ipv4Address::new(8, 8, 8, 8),
    );
    assert_eq!(&buf[..6], &GATEWAY.octets[..]);
    assert_eq!(&buf[6..12], &GUEST.octets[..]);
    assert_eq!(&buf[12..14], &[8, 0][..]);
    assert_eq!(&buf[14..24], &[0x45, 0, 0, 48, 0, 0, 0x40, 0, 64, 6][..]);
    assert_eq!(&buf[26..34], &[10, 0, 0, 2, 8, 8, 8, 8][..]);
    assert_eq!(
        &buf[34..50],
        &[0xad, 0x9c, 0, 80, 0, 0, 3, 0xe8, 0, 0, 0, 0, 0x70, 2, 0xfa, 0xf0][..]
    );
    assert_eq!(&buf[24..26], &[0x20, 0xb7][..]);
    assert_eq!(&buf[50..52], &[0xb7, 0x48][..]);
    assert_eq!(&buf[52..], &[0, 0, 2, 4, 5, 0xb4, 3, 3, 7, 0][..]);
}

#[test]
fn ipv6_syn_parses() {
    let src = Ipv6Address::new(0x2001, 0xdb8, 0, 0, 0, 0, 0, 2);
    let dst = Ipv6Address::new(0, 0, 0, 0, 0, 0, 0, 1);
    let mut buf = vec![0xa5u8; 100];
    let len = build_ipv6_syn(&mut buf, GUEST, GATEWAY, src, dst);
    assert_eq!(len, 82);
    assert!(buf[82..].iter().all(|octet| *octet == 0xa5));

    let eth = wire::EthernetFrame::new_checked(&buf[..len]).unwrap();
    assert_eq!(eth.src_addr(), wire::EthernetAddress(GUEST.octets));
    assert_eq!(eth.dst_addr(), wire::EthernetAddress(GATEWAY.octets));
    assert_eq!(eth.ethertype(), wire::EthernetProtocol::Ipv6);

    let ipv6 = wire::Ipv6Packet::new_checked(eth.payload()).unwrap();
    assert_eq!(ipv6.version(), 6);
    assert_eq!(
        ipv6.src_addr(),
        wire::Ipv6Address::new(0x2001, 0xdb8, 0, 0, 0, 0, 0, 2)
    );
    assert_eq!(
        ipv6.dst_addr(),
        wire::Ipv6Address::new(0, 0, 0, 0, 0, 0, 0, 1)
    );
    assert_eq!(&buf[14..22], &[0x60, 0, 0, 0, 0, 28, 6, 64][..]);
    assert_eq!(&buf[70..72], &[0xa3, 0x9e][..]);
    assert_eq!(ipv6.payload_len(), 28);
    assert_eq!(ipv6.hop_limit(), 64);

    let tcp = wire::TcpPacket::new_checked(ipv6.payload()).unwrap();
    let (src, dst) = (ipv6.src_addr().into(), ipv6.dst_addr().into());
    let repr = wire::TcpRepr::parse(&tcp, &src, &dst, &ChecksumCapabilities::default()).unwrap();
    assert_eq!(repr.control, wire::TcpControl::Syn);
    assert_eq!(repr.dst_port, 80);
}

#[test]
fn filling_the_checksum_again_changes_nothing() {
    let mut buf = vec![0u8; 62];
    build_ipv4_syn(
        &mut buf,
        GUEST,
        GATEWAY,
        Ipv4Address::new(10, 0, 0, 2),
        Ipv4Address::new(8, 8, 8, 8),
    );
    let before = buf.clone();
    wire::TcpPacket::new_unchecked(&mut buf[34..]).fill_checksum(
        &wire::Ipv4Address::new(10, 0, 0, 2).into(),
        &wire::Ipv4Address::new(8, 8, 8, 8).into(),
    );
    assert_eq!(buf, before);
}

#[test]
fn ipv4_packets_that_come_back_are_told() {
    let src = Ipv4Address::new(10, 0, 0, 2);
    let dst = Ipv4Address::new(127, 0, 0, 1);
    let other = Ipv4Address::new(8, 8, 8, 8);
    let mut buf = vec![0u8; 62];
    build_ipv4_syn(&mut buf, GATEWAY, GUEST, src, dst);
    let one = vec![received(&buf, true)];

    assert!(ipv4_looped_back(&one, GATEWAY, GUEST, src, dst));
    assert!(!ipv4_looped_back(&one, GUEST, GATEWAY, src, dst));
    assert!(!ipv4_looped_back(&one, GATEWAY, GUEST, src, other));
    assert!(!ipv4_looped_back(&one, GATEWAY, GUEST, dst, src));
    assert!(!ipv4_looped_back(&vec![received(&buf, false)], GATEWAY, GUEST, src, dst));
    assert!(!ipv4_looped_back(&Vec::new(), GATEWAY, GUEST, src, dst));
    let two = vec![received(&buf, true), received(&buf, true)];
    assert!(!ipv4_looped_back(&two, GATEWAY, GUEST, src, dst));

    assert!(!ipv4_not_looped_back(&two, src, dst));
    assert!(ipv4_not_looped_back(&two, src, other));
    assert!(ipv4_not_looped_back(&Vec::new(), src, dst));
}

#[test]
fn ipv6_packets_that_come_back_are_told() {
    let src = Ipv6Address::new(0x2001, 0xdb8, 0, 0, 0, 0, 0, 2);
    let dst = Ipv6Address::new(0, 0, 0, 0, 0, 0, 0, 1);
    let mut buf = vec![0u8; 82];
    build_ipv6_syn(&mut buf, GATEWAY, GUEST, src, dst);
    let one = vec![received(&buf, false)];

    assert!(ipv6_looped_back(&one, GATEWAY, GUEST, src, dst));
    assert!(!ipv6_looped_back(&one, GATEWAY, GATEWAY, src, dst));
    assert!(!ipv6_not_looped_back(&one, src, dst));
    assert!(ipv6_not_looped_back(&one, dst, src));
    assert!(ipv4_not_looped_back(
        &one,
        Ipv4Address::new(10, 0, 0, 2),
        Ipv4Address::new(127, 0, 0, 1)
    ));
}

#[test]
fn short_frames_are_told_as_far_as_they_go() {
    let src = Ipv4Address::new(10, 0, 0, 2);
    let other = Ipv4Address::new(8, 8, 8, 8);
    let dst = Ipv4Address::new(127, 0, 0, 1);
    let mut buf = vec![0u8; 62];
    build_ipv4_syn(&mut buf, GATEWAY, GUEST, src, dst);
    assert!(!ipv4_looped_back(&vec![received(&buf[..33], true)], GATEWAY, GUEST, src, dst));
    assert!(ipv4_looped_back(&vec![received(&buf[..34], true)], GATEWAY, GUEST, src, dst));
    assert!(!ipv4_looped_back(&vec![received(&[], true)], GATEWAY, GUEST, src, dst));
    // The source of this one can be told, and it is another.
    assert!(ipv4_not_looped_back(&vec![received(&buf[..30], true)], other, dst));
    // Nothing after the first that came back is looked at.
    let after = vec![received(&buf[..34], true), received(&[], true)];
    assert!(!ipv4_not_looped_back(&after, src, dst));
    let six = Ipv6Address::new(0, 0, 0, 0, 0, 0, 0, 1);
    assert!(ipv6_not_looped_back(&vec![received(&buf[..14], true)], six, six));
    assert!(!ipv6_looped_back(&vec![received(&buf[..14], true)], GATEWAY, GUEST, six, six));
}
