use net_replay_test::options::{QueryOptions, QueryReplay, ServerOptions};
use net_replay_test::packet::{Packet, PacketDirection, PacketProtocol};
use net_replay_test::packet_filter::{
    packet_name_replace, raw_replace, string_replace, FilterError, InfiniteSequence,
};
use net_replay_test::value::CommonValue;

#[test]
fn replace_string() {
    let mut buffer = b"foo: This is a foo test".to_vec();
    let r = string_replace(&mut buffer, "foo", "bar").unwrap();
    assert_eq!(r, 2);
    assert_eq!(buffer, b"bar: This is a bar test".to_vec());
}

#[test]
fn test_infinite() {
    let source = vec![0u8, 1, 2];
    let mut inf = InfiniteSequence::new(source);

    let generated: Vec<u8> = inf.take_n(12);
    assert_eq!(generated, vec![0, 1, 2, 0, 0, 0, 1, 0, 2, 1, 0, 1]);
}

#[test]
fn raw_replace_counts_occurrences() {
    let mut buffer = b"foo: This is a foo test".to_vec();
    let r = raw_replace(&mut buffer, b"foo", b"bar").unwrap();
    assert_eq!(r, 2);
    assert_eq!(buffer, b"bar: This is a bar test".to_vec());
}

#[test]
fn raw_replace_identity_keeps_buffer() {
    let original = b"foo: This is a foo test".to_vec();
    let mut buffer = original.clone();
    let r = raw_replace(&mut buffer, b"foo", b"foo").unwrap();
    assert_eq!(r, 2);
    assert_eq!(buffer, original);
}

#[test]
fn raw_replace_non_overlapping() {
    // Overlapping starts resolve to disjoint non-overlapping replacements.
    let mut buffer = b"aaa".to_vec();
    let r = raw_replace(&mut buffer, b"aa", b"bb").unwrap();
    assert_eq!(r, 1);
    assert_eq!(buffer, b"bba".to_vec());
}

#[test]
fn raw_replace_empty_needle() {
    let mut buffer = b"abc".to_vec();
    let r = raw_replace(&mut buffer, b"", b"");
    assert!(matches!(r, Err(FilterError::EmptyReplace)));
    assert_eq!(buffer, b"abc".to_vec());
}

#[test]
fn raw_replace_length_mismatch() {
    let mut buffer = b"abc".to_vec();
    let r = raw_replace(&mut buffer, b"ab", b"a");
    assert!(matches!(r, Err(FilterError::MismatchReplaceLen)));
    assert_eq!(buffer, b"abc".to_vec());
}

#[test]
fn fresh_generators_agree() {
    let mut a = InfiniteSequence::new(vec![7u8, 9, 11]);
    let mut b = InfiniteSequence::new(vec![7u8, 9, 11]);
    assert_eq!(a.take_n(40), b.take_n(40));
}

fn sample_replay(player_names: Vec<String>, packets: Vec<Packet>) -> QueryReplay {
    QueryReplay {
        query: QueryOptions {
            address: String::from("192.0.2.1"),
            port: Some(27015),
            game: String::from("tf2"),
        },
        server: ServerOptions { tcp_port: None, udp_port: Some(27015), packet_size: 64 },
        packets,
        value: CommonValue {
            name: Some(String::from("srv")),
            map: None,
            has_password: Some(false),
            players_online: Some(2),
            players_maximum: Some(16),
            player_names,
        },
        replay_version: 1,
    }
}

#[test]
fn name_replace_rewrites_payloads_and_names() {
    let packets = vec![
        Packet {
            direction: PacketDirection::FromServer,
            protocol: PacketProtocol::Udp,
            src_port: 27015,
            dst_port: 50000,
            data: b"hi Alice and Bob".to_vec(),
        },
        Packet {
            direction: PacketDirection::ToServer,
            protocol: PacketProtocol::Udp,
            src_port: 50000,
            dst_port: 27015,
            data: b"who is Alice?".to_vec(),
        },
    ];
    let names = vec![String::from("Alice"), String::from("Bob")];
    let mut replay = sample_replay(names, packets);

    packet_name_replace(&mut replay).unwrap();

    // "Alice" gets the first five letters, "Bob" the next three.
    assert_eq!(replay.value.player_names, vec![String::from("abcde"), String::from("fgh")]);
    assert_eq!(replay.packets[0].data, b"hi abcde and fgh".to_vec());
    // Client traffic is left alone.
    assert_eq!(replay.packets[1].data, b"who is Alice?".to_vec());
}

#[test]
fn name_replace_tolerates_empty_name_without_server_packets() {
    // With no server-originated payload to rewrite, an empty name never
    // becomes a needle; the names are still censored.
    let packets = vec![Packet {
        direction: PacketDirection::ToServer,
        protocol: PacketProtocol::Udp,
        src_port: 50000,
        dst_port: 27015,
        data: b"query".to_vec(),
    }];
    let names = vec![String::from(""), String::from("Bob")];
    let mut replay = sample_replay(names, packets);

    packet_name_replace(&mut replay).unwrap();

    assert_eq!(replay.value.player_names, vec![String::from(""), String::from("abc")]);
    assert_eq!(replay.packets[0].data, b"query".to_vec());
}

#[test]
fn name_replace_rejects_empty_name() {
    let packets = vec![Packet {
        direction: PacketDirection::FromServer,
        protocol: PacketProtocol::Udp,
        src_port: 27015,
        dst_port: 50000,
        data: b"hello".to_vec(),
    }];
    let names = vec![String::from(""), String::from("Bob")];
    let mut replay = sample_replay(names.clone(), packets);

    let r = packet_name_replace(&mut replay);
    assert!(matches!(r, Err(FilterError::EmptyReplace)));
    assert_eq!(replay.value.player_names, names);
    assert_eq!(replay.packets[0].data, b"hello".to_vec());
}
