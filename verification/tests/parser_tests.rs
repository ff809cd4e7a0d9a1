use net_replay_test::packet::{IpAddress, Packet, PacketDirection, PacketParseError, PacketProtocol};

fn ipv4_udp_frame(src: [u8; 4], dst: [u8; 4], src_port: u16, dst_port: u16, payload: &[u8]) -> Vec<u8> {
    let total_len = (20 + 8 + payload.len()) as u16;
    let mut frame = vec![
        0x45, 0x00, // version 4, header length 5 words, DSCP
        (total_len >> 8) as u8, (total_len & 0xff) as u8,
        0x00, 0x00, 0x00, 0x00, // identification, flags, fragment offset
        0x40, 17, // TTL, protocol = UDP
        0x00, 0x00, // checksum (not verified)
    ];
    frame.extend_from_slice(&src);
    frame.extend_from_slice(&dst);
    let udp_len = (8 + payload.len()) as u16;
    frame.extend_from_slice(&src_port.to_be_bytes());
    frame.extend_from_slice(&dst_port.to_be_bytes());
    frame.extend_from_slice(&udp_len.to_be_bytes());
    frame.extend_from_slice(&[0x00, 0x00]); // checksum
    frame.extend_from_slice(payload);
    frame
}

#[test]
fn parses_ipv4_udp_to_server() {
    let locals = [IpAddress::V4(u32::from_be_bytes([10, 0, 0, 2]))];
    let frame = ipv4_udp_frame([10, 0, 0, 2], [1, 2, 3, 4], 50000, 27015, &[0xFF, 0xFF, 0xFF, 0xFF, 0x54]);

    let packet = Packet::try_parse(&frame, &locals).unwrap();
    assert_eq!(packet.direction, PacketDirection::ToServer);
    assert_eq!(packet.protocol, PacketProtocol::Udp);
    assert_eq!(packet.src_port, 50000);
    assert_eq!(packet.dst_port, 27015);
    assert_eq!(packet.data, vec![0xFF, 0xFF, 0xFF, 0xFF, 0x54]);
}

#[test]
fn parses_ipv4_udp_from_server() {
    let locals = [IpAddress::V4(u32::from_be_bytes([10, 0, 0, 2]))];
    let frame = ipv4_udp_frame([1, 2, 3, 4], [10, 0, 0, 2], 27015, 50000, b"ok");

    let packet = Packet::try_parse(&frame, &locals).unwrap();
    assert_eq!(packet.direction, PacketDirection::FromServer);
    assert_eq!(packet.src_port, 27015);
    assert_eq!(packet.dst_port, 50000);
    assert_eq!(packet.data, b"ok".to_vec());
}

#[test]
fn strips_link_layer_padding() {
    let locals = [IpAddress::V4(u32::from_be_bytes([10, 0, 0, 2]))];
    let mut frame = ipv4_udp_frame([10, 0, 0, 2], [1, 2, 3, 4], 50000, 27015, b"ping");
    // Short frames are padded on the wire; the total-length field governs.
    frame.extend_from_slice(&[0u8; 14]);

    let packet = Packet::try_parse(&frame, &locals).unwrap();
    assert_eq!(packet.data, b"ping".to_vec());
}

#[test]
fn parses_ipv6_tcp() {
    let locals = [IpAddress::V6(0x20010db800000000, 0x0000000000000001)];
    let payload = b"hello";
    let tcp_len = (20 + payload.len()) as u16;
    let mut frame = vec![
        0x60, 0x00, 0x00, 0x00, // version 6, traffic class, flow label
        (tcp_len >> 8) as u8, (tcp_len & 0xff) as u8, // payload length
        6,    // next header = TCP
        64,   // hop limit
    ];
    // source 2001:db8::1
    frame.extend_from_slice(&0x20010db800000000u64.to_be_bytes());
    frame.extend_from_slice(&0x0000000000000001u64.to_be_bytes());
    // destination 2001:db8::2
    frame.extend_from_slice(&0x20010db800000000u64.to_be_bytes());
    frame.extend_from_slice(&0x0000000000000002u64.to_be_bytes());
    // TCP header: ports, seq, ack, offset 5 words
    frame.extend_from_slice(&4000u16.to_be_bytes());
    frame.extend_from_slice(&80u16.to_be_bytes());
    frame.extend_from_slice(&[0u8; 8]); // seq + ack
    frame.push(0x50); // data offset 5
    frame.extend_from_slice(&[0u8; 7]); // flags, window, checksum, urgent
    frame.extend_from_slice(payload);

    let packet = Packet::try_parse(&frame, &locals).unwrap();
    assert_eq!(packet.direction, PacketDirection::ToServer);
    assert_eq!(packet.protocol, PacketProtocol::Tcp);
    assert_eq!(packet.src_port, 4000);
    assert_eq!(packet.dst_port, 80);
    assert_eq!(packet.data, b"hello".to_vec());
}

#[test]
fn rejects_unknown_network_header() {
    let locals = [IpAddress::V4(0)];
    let frame = [0x25u8; 40]; // version nibble 2
    let r = Packet::try_parse(&frame, &locals);
    assert_eq!(r, Err(PacketParseError::NoNetworkHeader));
}

#[test]
fn rejects_unsupported_transport() {
    let locals = [IpAddress::V4(0)];
    let mut frame = ipv4_udp_frame([1, 2, 3, 4], [5, 6, 7, 8], 1, 2, b"x");
    frame[9] = 1; // ICMP
    let r = Packet::try_parse(&frame, &locals);
    assert_eq!(r, Err(PacketParseError::UnsupportedTransport));
}

#[test]
fn rejects_truncated_transport_header() {
    let locals = [IpAddress::V4(0)];
    // IPv4 header only: total length 24 leaves 4 bytes, less than a UDP header.
    let mut frame = vec![
        0x45, 0x00, 0x00, 24, 0x00, 0x00, 0x00, 0x00, 0x40, 17, 0x00, 0x00,
        1, 2, 3, 4, 5, 6, 7, 8,
    ];
    frame.extend_from_slice(&[0u8; 4]);
    let r = Packet::try_parse(&frame, &locals);
    assert_eq!(r, Err(PacketParseError::NoTransportHeader));
}
