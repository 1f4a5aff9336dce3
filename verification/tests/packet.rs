use hushwire::net::Ipv4Addr;
use hushwire::packet::{Ipv4Packet, PacketError};

#[test]
fn parses_ipv4_addresses_and_protocol() {
    let packet = [
        0x45, 0x00, 0x00, 0x14, 0x00, 0x00, 0x40, 0x00, 64, 6, 0x00, 0x00, 10, 77, 0, 1, 10, 77, 0,
        2,
    ];

    let parsed = Ipv4Packet::parse(&packet).expect("valid IPv4 packet");

    assert_eq!(parsed.source(), Ipv4Addr::new(10, 77, 0, 1));
    assert_eq!(parsed.destination(), Ipv4Addr::new(10, 77, 0, 2));
    assert_eq!(parsed.protocol(), 6);
}

#[test]
fn rejects_non_ipv4_packets() {
    let packet = [
        0x60, 0x00, 0x00, 0x00, 0x00, 0x14, 17, 64, 0, 0, 0, 0, 0, 0, 0, 0, 0, 0, 0, 0,
    ];

    assert!(matches!(
        Ipv4Packet::parse(&packet),
        Err(PacketError::NotIpv4(6))
    ));
}

#[test]
fn rejects_truncated_headers() {
    assert!(matches!(
        Ipv4Packet::parse(&[0x45; 19]),
        Err(PacketError::TooShort(19))
    ));
    let mut options = [0u8; 20];
    options[0] = 0x46;
    assert!(matches!(
        Ipv4Packet::parse(&options),
        Err(PacketError::HeaderTooLong {
            header_len: 24,
            packet_len: 20
        })
    ));
}
