use net_replay_test::error::Error;
use net_replay_test::options::{QueryOptions, ServerOptions, ServerOptionsError};
use net_replay_test::packet::{Packet, PacketDirection, PacketProtocol};
use net_replay_test::value::CommonValue;
use net_replay_test::{build_replay, check_replay_version, replay_query_options, REPLAY_VERSION};

fn udp_packet(direction: PacketDirection, server_port: u16, len: usize) -> Packet {
    packet(direction, PacketProtocol::Udp, server_port, len)
}

fn packet(direction: PacketDirection, protocol: PacketProtocol, server_port: u16, len: usize) -> Packet {
    let (src_port, dst_port) = match direction {
        PacketDirection::ToServer => (50000, server_port),
        PacketDirection::FromServer => (server_port, 50000),
    };
    Packet { direction, protocol, src_port, dst_port, data: vec![0u8; len] }
}

fn empty_value() -> CommonValue {
    CommonValue {
        name: None,
        map: None,
        has_password: None,
        players_online: None,
        players_maximum: None,
        player_names: Vec::new(),
    }
}

#[test]
fn ambiguous_udp_ports() {
    let packets = vec![
        udp_packet(PacketDirection::ToServer, 27015, 10),
        udp_packet(PacketDirection::FromServer, 27015, 20),
        udp_packet(PacketDirection::ToServer, 27016, 10),
    ];
    let r = ServerOptions::try_from_packets(&packets);
    match r {
        Err(ServerOptionsError::AmbiguousPort(ports)) => {
            assert_eq!(ports.len(), 2);
            assert!(ports.contains(&27015));
            assert!(ports.contains(&27016));
        },
        other => panic!("expected AmbiguousPort, got {:?}", other),
    }
}

#[test]
fn mixed_transport_happy_path() {
    let mut packets = vec![
        udp_packet(PacketDirection::ToServer, 27015, 100),
        udp_packet(PacketDirection::FromServer, 27015, 1200),
        udp_packet(PacketDirection::ToServer, 27015, 50),
    ];
    packets.push(packet(PacketDirection::ToServer, PacketProtocol::Tcp, 27015, 80));
    packets.push(packet(PacketDirection::FromServer, PacketProtocol::Tcp, 27015, 700));

    let r = ServerOptions::try_from_packets(&packets).unwrap();
    assert_eq!(r.tcp_port, Some(27015));
    assert_eq!(r.udp_port, Some(27015));
    assert_eq!(r.packet_size, 1200);
}

#[test]
fn no_packets_no_port() {
    let r = ServerOptions::try_from_packets(&Vec::new());
    assert!(matches!(r, Err(ServerOptionsError::NoPort)));
}

#[test]
fn version_gate() {
    assert!(check_replay_version(REPLAY_VERSION).is_ok());
    let r = check_replay_version(0);
    assert_eq!(r, Err(Error::WrongReplayVersion { found: 0, required: 1 }));
}

#[test]
fn build_replay_bundles_capture() {
    let packets = vec![
        udp_packet(PacketDirection::ToServer, 27015, 10),
        udp_packet(PacketDirection::FromServer, 27015, 32),
    ];
    let query = QueryOptions {
        address: String::from("192.0.2.9"),
        port: None,
        game: String::from("tf2"),
    };
    let replay = build_replay(query, packets, empty_value()).unwrap();
    assert_eq!(replay.replay_version, REPLAY_VERSION);
    assert_eq!(replay.server.udp_port, Some(27015));
    assert_eq!(replay.server.tcp_port, None);
    assert_eq!(replay.server.packet_size, 32);
    assert_eq!(replay.packets.len(), 2);
    assert_eq!(replay.query.game, "tf2");
}

#[test]
fn build_replay_rejects_empty_capture() {
    let query = QueryOptions {
        address: String::from("192.0.2.9"),
        port: None,
        game: String::from("tf2"),
    };
    let r = build_replay(query, Vec::new(), empty_value());
    assert_eq!(r.err(), Some(Error::ServerOptions(ServerOptionsError::NoPort)));
}

#[test]
fn replay_options_point_at_loopback() {
    let query = QueryOptions {
        address: String::from("game.example.net"),
        port: Some(27015),
        game: String::from("tf2"),
    };
    let r = replay_query_options(&query);
    assert_eq!(r.address, "127.0.0.50");
    assert_eq!(r.port, Some(27015));
    assert_eq!(r.game, "tf2");
}

#[test]
fn file_name_layout() {
    let query = QueryOptions {
        address: String::from("game.example.net"),
        port: None,
        game: String::from("tf2"),
    };
    let name = query.file_name_with_date("2024-05-01T12:00:00Z");
    assert_eq!(name, "replay-2024-05-01T12:00:00Z-tf2-game.example.net.json");
}

#[test]
fn file_name_stamped_now() {
    let query = QueryOptions {
        address: String::from("game.example.net"),
        port: None,
        game: String::from("tf2"),
    };
    let name = query.as_file_name();
    assert!(name.starts_with("replay-"));
    assert!(name.ends_with("-tf2-game.example.net.json"));
    // A seconds-precision RFC 3339 date is 20 characters.
    assert_eq!(name.len(), "replay-".len() + 20 + "-tf2-game.example.net.json".len());
}
